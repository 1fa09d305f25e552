use vstd::prelude::*;

use crate::decoder::field;
use crate::risclib::spec_sextend;
use crate::text::{chars_eq_str, is_ascii_char, parse_i32, parse_int_exec, parse_u32, slice_chars, IntErrorKind};

verus! {

// ---------------------------------------------------------------------------
// Mnemonics.

/// The major opcode and the `funct3` field of a mnemonic; `(0, 0)` for a word
/// that is no mnemonic.
pub open spec fn mnemonic(op: Seq<char>) -> (u32, u32) {
    if op == "lui"@ { (0x37, 0) }
    else if op == "auipc"@ { (0x17, 0) }
    else if op == "jal"@ { (0x6f, 0) }
    else if op == "jalr"@ { (0x67, 0) }
    else if op == "beq"@ { (0x63, 0) }
    else if op == "bne"@ { (0x63, 1) }
    else if op == "blt"@ { (0x63, 4) }
    else if op == "bge"@ { (0x63, 5) }
    else if op == "bltu"@ { (0x63, 6) }
    else if op == "bgeu"@ { (0x63, 7) }
    else if op == "lb"@ { (0x03, 0) }
    else if op == "lh"@ { (0x03, 1) }
    else if op == "lw"@ { (0x03, 2) }
    else if op == "lbu"@ { (0x03, 4) }
    else if op == "lhu"@ { (0x03, 5) }
    else if op == "sb"@ { (0x23, 0) }
    else if op == "sh"@ { (0x23, 1) }
    else if op == "sw"@ { (0x23, 2) }
    else if op == "addi"@ { (0x13, 0) }
    else if op == "slti"@ { (0x13, 2) }
    else if op == "sltiu"@ { (0x13, 3) }
    else if op == "xori"@ { (0x13, 4) }
    else if op == "ori"@ { (0x13, 6) }
    else if op == "andi"@ { (0x13, 7) }
    else if op == "srli"@ { (0x13, 5) }
    else if op == "slli"@ { (0x13, 1) }
    else if op == "srai"@ { (0x13, 5) }
    else if op == "add"@ { (0x33, 0) }
    else if op == "sub"@ { (0x33, 0) }
    else if op == "sll"@ { (0x33, 1) }
    else if op == "slt"@ { (0x33, 2) }
    else if op == "sltu"@ { (0x33, 3) }
    else if op == "xor"@ { (0x33, 4) }
    else if op == "srl"@ { (0x33, 5) }
    else if op == "sra"@ { (0x33, 5) }
    else if op == "or"@ { (0x33, 6) }
    else if op == "and"@ { (0x33, 7) }
    else if op == "mul"@ { (0x33, 0) }
    else if op == "mulh"@ { (0x33, 1) }
    else if op == "mulhsu"@ { (0x33, 2) }
    else if op == "mulhu"@ { (0x33, 3) }
    else if op == "div"@ { (0x33, 4) }
    else if op == "divu"@ { (0x33, 5) }
    else if op == "rem"@ { (0x33, 6) }
    else if op == "remu"@ { (0x33, 7) }
    else if op == "fence"@ { (0x0f, 0) }
    else if op == "fence.tso"@ { (0x0f, 0) }
    else if op == "pause"@ { (0x0f, 0) }
    else if op == "ebreak"@ { (0x73, 0) }
    else if op == "ecall"@ { (0x73, 0) }
    else { (0, 0) }
}

/// The `funct7` field (bits 31:25) of a mnemonic: `0b0100000` marks `sub`
/// and the arithmetic shifts, 1 the M extension.
pub open spec fn funct7(op: Seq<char>) -> u32 {
    if op == "sra"@ || op == "sub"@ || op == "srai"@ {
        0x20
    } else if op == "mul"@ || op == "mulh"@ || op == "mulhsu"@ || op == "mulhu"@ || op == "div"@
        || op == "divu"@ || op == "rem"@ || op == "remu"@ {
        1
    } else {
        0
    }
}

/// Looks a mnemonic up.
pub fn mnemonic_exec(op: &Vec<char>) -> (r: (u32, u32))
    ensures
        r == mnemonic(op@),
{
    if chars_eq_str(op, "lui") { (0x37, 0) }
    else if chars_eq_str(op, "auipc") { (0x17, 0) }
    else if chars_eq_str(op, "jal") { (0x6f, 0) }
    else if chars_eq_str(op, "jalr") { (0x67, 0) }
    else if chars_eq_str(op, "beq") { (0x63, 0) }
    else if chars_eq_str(op, "bne") { (0x63, 1) }
    else if chars_eq_str(op, "blt") { (0x63, 4) }
    else if chars_eq_str(op, "bge") { (0x63, 5) }
    else if chars_eq_str(op, "bltu") { (0x63, 6) }
    else if chars_eq_str(op, "bgeu") { (0x63, 7) }
    else if chars_eq_str(op, "lb") { (0x03, 0) }
    else if chars_eq_str(op, "lh") { (0x03, 1) }
    else if chars_eq_str(op, "lw") { (0x03, 2) }
    else if chars_eq_str(op, "lbu") { (0x03, 4) }
    else if chars_eq_str(op, "lhu") { (0x03, 5) }
    else if chars_eq_str(op, "sb") { (0x23, 0) }
    else if chars_eq_str(op, "sh") { (0x23, 1) }
    else if chars_eq_str(op, "sw") { (0x23, 2) }
    else if chars_eq_str(op, "addi") { (0x13, 0) }
    else if chars_eq_str(op, "slti") { (0x13, 2) }
    else if chars_eq_str(op, "sltiu") { (0x13, 3) }
    else if chars_eq_str(op, "xori") { (0x13, 4) }
    else if chars_eq_str(op, "ori") { (0x13, 6) }
    else if chars_eq_str(op, "andi") { (0x13, 7) }
    else if chars_eq_str(op, "srli") { (0x13, 5) }
    else if chars_eq_str(op, "slli") { (0x13, 1) }
    else if chars_eq_str(op, "srai") { (0x13, 5) }
    else if chars_eq_str(op, "add") { (0x33, 0) }
    else if chars_eq_str(op, "sub") { (0x33, 0) }
    else if chars_eq_str(op, "sll") { (0x33, 1) }
    else if chars_eq_str(op, "slt") { (0x33, 2) }
    else if chars_eq_str(op, "sltu") { (0x33, 3) }
    else if chars_eq_str(op, "xor") { (0x33, 4) }
    else if chars_eq_str(op, "srl") { (0x33, 5) }
    else if chars_eq_str(op, "sra") { (0x33, 5) }
    else if chars_eq_str(op, "or") { (0x33, 6) }
    else if chars_eq_str(op, "and") { (0x33, 7) }
    else if chars_eq_str(op, "mul") { (0x33, 0) }
    else if chars_eq_str(op, "mulh") { (0x33, 1) }
    else if chars_eq_str(op, "mulhsu") { (0x33, 2) }
    else if chars_eq_str(op, "mulhu") { (0x33, 3) }
    else if chars_eq_str(op, "div") { (0x33, 4) }
    else if chars_eq_str(op, "divu") { (0x33, 5) }
    else if chars_eq_str(op, "rem") { (0x33, 6) }
    else if chars_eq_str(op, "remu") { (0x33, 7) }
    else if chars_eq_str(op, "fence") { (0x0f, 0) }
    else if chars_eq_str(op, "fence.tso") { (0x0f, 0) }
    else if chars_eq_str(op, "pause") { (0x0f, 0) }
    else if chars_eq_str(op, "ebreak") { (0x73, 0) }
    else if chars_eq_str(op, "ecall") { (0x73, 0) }
    else { (0, 0) }
}

fn funct7_exec(op: &Vec<char>) -> (r: u32)
    ensures
        r == funct7(op@),
{
    if chars_eq_str(op, "sra") || chars_eq_str(op, "sub") || chars_eq_str(op, "srai") {
        0x20
    } else if chars_eq_str(op, "mul") || chars_eq_str(op, "mulh") || chars_eq_str(op, "mulhsu")
        || chars_eq_str(op, "mulhu") || chars_eq_str(op, "div") || chars_eq_str(op, "divu")
        || chars_eq_str(op, "rem") || chars_eq_str(op, "remu") {
        1
    } else {
        0
    }
}

// ---------------------------------------------------------------------------
// Operands. `None` stands for an operand the assembler cannot even look at.

/// A register operand: one ASCII character (the `x`) and a decimal `u32`,
/// masked to five bits. `None` where it is empty or its first character is
/// not ASCII.
pub open spec fn reg_operand(t: Seq<char>) -> Option<Result<u32, IntErrorKind>> {
    if t.len() == 0 || !is_ascii_char(t[0]) {
        None
    } else {
        match parse_u32(t.drop_first(), 10) {
            Ok(v) => Some(Ok((v as u32) & 0x1f)),
            Err(e) => Some(Err(e)),
        }
    }
}

/// An immediate operand: a decimal `i32`, its two's complement masked.
pub open spec fn imm_operand(t: Seq<char>, mask: u32) -> Option<Result<u32, IntErrorKind>> {
    match parse_i32(t, 10) {
        Ok(v) => Some(Ok(((v as i32) as u32) & mask)),
        Err(e) => Some(Err(e)),
    }
}

fn reg_operand_exec(t: &Vec<char>) -> (r: Option<Result<u32, IntErrorKind>>)
    ensures
        r == reg_operand(t@),
{
    if t.len() == 0 || (t[0] as u32) >= 128 {
        return None;
    }
    let digits = slice_chars(t, 1, t.len());
    assert(digits@ =~= t@.drop_first());
    match parse_int_exec(&digits, 10, false, 0, 0xffff_ffff) {
        Ok(v) => Some(Ok((v as u32) & 0x1f)),
        Err(e) => Some(Err(e)),
    }
}

fn imm_operand_exec(t: &Vec<char>, mask: u32) -> (r: Option<Result<u32, IntErrorKind>>)
    ensures
        r == imm_operand(t@, mask),
{
    match parse_int_exec(t, 10, true, -0x8000_0000, 0x7fff_ffff) {
        Ok(v) => Some(Ok(((v as i32) as u32) & mask)),
        Err(e) => Some(Err(e)),
    }
}

/// Two operands read in order: the first failure decides.
pub open spec fn operands2(
    a: Option<Result<u32, IntErrorKind>>,
    b: Option<Result<u32, IntErrorKind>>,
) -> Option<Result<(u32, u32), IntErrorKind>> {
    match a {
        None => None,
        Some(Err(e)) => Some(Err(e)),
        Some(Ok(x)) => match b {
            None => None,
            Some(Err(e)) => Some(Err(e)),
            Some(Ok(y)) => Some(Ok((x, y))),
        },
    }
}

/// Three operands read in order: the first failure decides.
pub open spec fn operands3(
    a: Option<Result<u32, IntErrorKind>>,
    b: Option<Result<u32, IntErrorKind>>,
    c: Option<Result<u32, IntErrorKind>>,
) -> Option<Result<(u32, u32, u32), IntErrorKind>> {
    match operands2(a, b) {
        None => None,
        Some(Err(e)) => Some(Err(e)),
        Some(Ok((x, y))) => match c {
            None => None,
            Some(Err(e)) => Some(Err(e)),
            Some(Ok(z)) => Some(Ok((x, y, z))),
        },
    }
}

// ---------------------------------------------------------------------------
// Instruction words.

/// U-type: `lui`, `auipc`.
pub open spec fn u_word(opcode: u32, rd: u32, imm: u32) -> u32 {
    opcode | (rd << 7u32) | (imm << 12u32)
}

/// J-type: `jal`; the offset's bits 20, 10:1, 11 and 19:12 are scattered.
pub open spec fn j_word(opcode: u32, rd: u32, off: u32) -> u32 {
    opcode | (rd << 7u32) | (((off >> 12u32) & 0xff) << 12u32) | (((off >> 11u32) & 0x1) << 20u32) | (((
    off >> 1u32) & 0x3ff) << 21u32) | (((off >> 20u32) & 0x1) << 31u32)
}

/// I-type: `jalr`, loads, register-immediate arithmetic.
pub open spec fn i_word(opcode: u32, rd: u32, f3: u32, rs1: u32, imm: u32) -> u32 {
    opcode | (rd << 7u32) | (f3 << 12u32) | (rs1 << 15u32) | (imm << 20u32)
}

/// B-type: branches; the offset's bits 12, 10:5, 4:1 and 11 are scattered.
pub open spec fn b_word(opcode: u32, f3: u32, rs1: u32, rs2: u32, off: u32) -> u32 {
    opcode | (((off >> 11u32) & 0x1) << 7u32) | (((off >> 1u32) & 0xf) << 8u32) | (f3 << 12u32) | (rs1
        << 15u32) | (rs2 << 20u32) | (((off >> 5u32) & 0x3f) << 25u32) | (((off >> 12u32) & 0x1) << 31u32)
}

/// S-type: stores; the offset's bits 4:0 and 11:5 are split.
pub open spec fn s_word(opcode: u32, f3: u32, rs1: u32, rs2: u32, imm: u32) -> u32 {
    opcode | ((imm & 0x1f) << 7u32) | (rs1 << 15u32) | (f3 << 12u32) | (rs2 << 20u32) | (((imm >> 5u32)
        & 0x7f) << 25u32)
}

/// R-type: register-register arithmetic.
pub open spec fn r_word(opcode: u32, rd: u32, f3: u32, rs1: u32, rs2: u32, f7: u32) -> u32 {
    opcode | (rd << 7u32) | (rs1 << 15u32) | (f3 << 12u32) | (rs2 << 20u32) | (f7 << 25u32)
}

/// The machine word of one instruction given as tokens, mnemonic first.
/// `Some(Err(..))` where an operand does not parse (the first such decides);
/// `ebreak` carries the immediate 1, `ecall` 0, and `srai` the `funct7` of
/// an arithmetic shift. `None` where the line has no tokens, the mnemonic
/// is unknown or a fence,
/// an operand is missing, or a register operand cannot be looked at.
pub open spec fn encode_tokens(toks: Seq<Seq<char>>) -> Option<Result<u32, IntErrorKind>> {
    if toks.len() == 0 {
        None
    } else {
        let op = toks[0];
        let args = toks.drop_first();
        let (opcode, f3) = mnemonic(op);
        if opcode == 0 || opcode == 0x0f {
            None
        } else if opcode == 0x73 {
            Some(Ok(i_word(opcode, 0, 0, 0, if op == "ebreak"@ { 1 } else { 0 })))
        } else if opcode == 0x37 || opcode == 0x17 || opcode == 0x6f {
            if args.len() < 2 {
                None
            } else {
                match operands2(
                    reg_operand(args[0]),
                    imm_operand(
                        args[1],
                        if opcode == 0x6f {
                            0x1fffff
                        } else {
                            0xfffff
                        },
                    ),
                ) {
                    None => None,
                    Some(Err(e)) => Some(Err(e)),
                    Some(Ok((rd, imm))) => Some(
                        Ok(
                            if opcode == 0x6f {
                                j_word(opcode, rd, imm)
                            } else {
                                u_word(opcode, rd, imm)
                            },
                        ),
                    ),
                }
            }
        } else if args.len() < 3 {
            None
        } else if opcode == 0x63 {
            match operands3(reg_operand(args[0]), reg_operand(args[1]), imm_operand(args[2], 0x1fff)) {
                None => None,
                Some(Err(e)) => Some(Err(e)),
                Some(Ok((rs1, rs2, off))) => Some(Ok(b_word(opcode, f3, rs1, rs2, off))),
            }
        } else if opcode == 0x23 {
            match operands3(reg_operand(args[1]), reg_operand(args[0]), imm_operand(args[2], 0xfff)) {
                None => None,
                Some(Err(e)) => Some(Err(e)),
                Some(Ok((rs1, rs2, imm))) => Some(Ok(s_word(opcode, f3, rs1, rs2, imm))),
            }
        } else if opcode == 0x33 {
            match operands3(reg_operand(args[0]), reg_operand(args[1]), reg_operand(args[2])) {
                None => None,
                Some(Err(e)) => Some(Err(e)),
                Some(Ok((rd, rs1, rs2))) => Some(Ok(r_word(opcode, rd, f3, rs1, rs2, funct7(op)))),
            }
        } else {
            match operands3(reg_operand(args[0]), reg_operand(args[1]), imm_operand(args[2], 0xfff)) {
                None => None,
                Some(Err(e)) => Some(Err(e)),
                Some(Ok((rd, rs1, imm))) => Some(
                    Ok(i_word(opcode, rd, f3, rs1, imm) | (funct7(op) << 25u32)),
                ),
            }
        }
    }
}

/// Encodes one instruction given as tokens.
pub fn encode_tokens_exec(toks: &Vec<Vec<char>>) -> (r: Option<Result<u32, IntErrorKind>>)
    ensures
        r == encode_tokens(toks@.map_values(|t: Vec<char>| t@)),
{
    let ghost ts = toks@.map_values(|t: Vec<char>| t@);
    if toks.len() == 0 {
        return None;
    }
    let op = &toks[0];
    assert(op@ == ts[0]);
    let (opcode, f3) = mnemonic_exec(op);
    if opcode == 0 || opcode == 0x0f {
        return None;
    }
    if opcode == 0x73 {
        let imm: u32 = if chars_eq_str(op, "ebreak") {
            1
        } else {
            0
        };
        return Some(Ok(opcode | (0u32 << 7u32) | (0u32 << 12u32) | (0u32 << 15u32) | (imm << 20u32)));
    }
    let nargs = toks.len() - 1;
    assert(ts.drop_first().len() == nargs);
    if opcode == 0x37 || opcode == 0x17 || opcode == 0x6f {
        if nargs < 2 {
            return None;
        }
        assert(toks[1]@ == ts.drop_first()[0] && toks[2]@ == ts.drop_first()[1]);
        let rd = match reg_operand_exec(&toks[1]) {
            None => { return None; },
            Some(Err(e)) => { return Some(Err(e)); },
            Some(Ok(v)) => v,
        };
        let mask: u32 = if opcode == 0x6f {
            0x1fffff
        } else {
            0xfffff
        };
        let imm = match imm_operand_exec(&toks[2], mask) {
            None => { return None; },
            Some(Err(e)) => { return Some(Err(e)); },
            Some(Ok(v)) => v,
        };
        if opcode == 0x6f {
            let w = opcode | (rd << 7u32) | (((imm >> 12u32) & 0xff) << 12u32) | (((imm >> 11u32)
                & 0x1) << 20u32) | (((imm >> 1u32) & 0x3ff) << 21u32) | (((imm >> 20u32) & 0x1)
                << 31u32);
            return Some(Ok(w));
        } else {
            return Some(Ok(opcode | (rd << 7u32) | (imm << 12u32)));
        }
    }
    if nargs < 3 {
        return None;
    }
    assert(toks[1]@ == ts.drop_first()[0] && toks[2]@ == ts.drop_first()[1] && toks[3]@
        == ts.drop_first()[2]);
    if opcode == 0x23 {
        let rs1 = match reg_operand_exec(&toks[2]) {
            None => { return None; },
            Some(Err(e)) => { return Some(Err(e)); },
            Some(Ok(v)) => v,
        };
        let rs2 = match reg_operand_exec(&toks[1]) {
            None => { return None; },
            Some(Err(e)) => { return Some(Err(e)); },
            Some(Ok(v)) => v,
        };
        let imm = match imm_operand_exec(&toks[3], 0xfff) {
            None => { return None; },
            Some(Err(e)) => { return Some(Err(e)); },
            Some(Ok(v)) => v,
        };
        return Some(Ok(opcode | ((imm & 0x1f) << 7u32) | (rs1 << 15u32) | (f3 << 12u32) | (rs2
            << 20u32) | (((imm >> 5u32) & 0x7f) << 25u32)));
    }
    let a = match reg_operand_exec(&toks[1]) {
        None => { return None; },
        Some(Err(e)) => { return Some(Err(e)); },
        Some(Ok(v)) => v,
    };
    let b = match reg_operand_exec(&toks[2]) {
        None => { return None; },
        Some(Err(e)) => { return Some(Err(e)); },
        Some(Ok(v)) => v,
    };
    if opcode == 0x33 {
        let c = match reg_operand_exec(&toks[3]) {
            None => { return None; },
            Some(Err(e)) => { return Some(Err(e)); },
            Some(Ok(v)) => v,
        };
        let f7 = funct7_exec(op);
        return Some(Ok(opcode | (a << 7u32) | (b << 15u32) | (f3 << 12u32) | (c << 20u32) | (f7
            << 25u32)));
    }
    let mask: u32 = if opcode == 0x63 {
        0x1fff
    } else {
        0xfff
    };
    let c = match imm_operand_exec(&toks[3], mask) {
        None => { return None; },
        Some(Err(e)) => { return Some(Err(e)); },
        Some(Ok(v)) => v,
    };
    if opcode == 0x63 {
        Some(Ok(opcode | (((c >> 11u32) & 0x1) << 7u32) | (((c >> 1u32) & 0xf) << 8u32) | (f3
            << 12u32) | (a << 15u32) | (b << 20u32) | (((c >> 5u32) & 0x3f) << 25u32) | (((c
            >> 12u32) & 0x1) << 31u32)))
    } else {
        let f7 = funct7_exec(op);
        Some(Ok((opcode | (a << 7u32) | (f3 << 12u32) | (b << 15u32) | (c << 20u32)) | (f7 << 25u32)))
    }
}


// ---------------------------------------------------------------------------
// What the core reads back of an assembled word.

/// Decoding a register-register word gives back its opcode, registers and
/// function fields.
pub proof fn lemma_r_word_decodes(opcode: u32, rd: u32, f3: u32, rs1: u32, rs2: u32, f7: u32)
    requires
        opcode < 128,
        rd < 32,
        f3 < 8,
        rs1 < 32,
        rs2 < 32,
        f7 < 128,
    ensures
        ({
            let w = r_word(opcode, rd, f3, rs1, rs2, f7);
            &&& crate::machine::opcode(w) == opcode
            &&& crate::machine::rd(w) == rd
            &&& crate::machine::funct3(w) == f3
            &&& crate::machine::rs1(w) == rs1
            &&& crate::machine::rs2(w) == rs2
            &&& crate::machine::funct7(w) == f7
        }),
{
    let w = r_word(opcode, rd, f3, rs1, rs2, f7);
    assert(field(w, 0, 6) == opcode && field(w, 7, 11) == rd && field(w, 12, 14) == f3 && field(
        w,
        15,
        19,
    ) == rs1 && field(w, 20, 24) == rs2 && field(w, 25, 31) == f7) by (bit_vector)
        requires
            w == opcode | (rd << 7u32) | (rs1 << 15u32) | (f3 << 12u32) | (rs2 << 20u32) | (f7
                << 25u32),
            opcode < 128,
            rd < 32,
            f3 < 8,
            rs1 < 32,
            rs2 < 32,
            f7 < 128,
    ;
}

/// Decoding an I-type word gives back its opcode, registers and function
/// field, and an immediate in -2048..2048 as it was written.
pub proof fn lemma_i_word_decodes(opcode: u32, rd: u32, f3: u32, rs1: u32, v: i32)
    requires
        opcode < 128,
        rd < 32,
        f3 < 8,
        rs1 < 32,
        -2048 <= v < 2048,
    ensures
        ({
            let w = i_word(opcode, rd, f3, rs1, (v as u32) & 0xfff);
            &&& crate::machine::opcode(w) == opcode
            &&& crate::machine::rd(w) == rd
            &&& crate::machine::funct3(w) == f3
            &&& crate::machine::rs1(w) == rs1
            &&& crate::machine::imm_i(w) == v
        }),
{
    let imm = (v as u32) & 0xfff;
    let w = i_word(opcode, rd, f3, rs1, imm);
    assert(field(w, 0, 6) == opcode && field(w, 7, 11) == rd && field(w, 12, 14) == f3 && field(
        w,
        15,
        19,
    ) == rs1 && field(w, 20, 31) == imm) by (bit_vector)
        requires
            w == opcode | (rd << 7u32) | (f3 << 12u32) | (rs1 << 15u32) | (imm << 20u32),
            imm == (v as u32) & 0xfff,
            opcode < 128,
            rd < 32,
            f3 < 8,
            rs1 < 32,
    ;
    let x = field(w, 20, 31) as i32;
    assert(spec_sextend(x, 12) == v) by (bit_vector)
        requires
            x == ((v as u32) & 0xfff) as i32,
            -2048 <= v < 2048,
    ;
}

/// Decoding a U-type word gives back its opcode and register, and the
/// immediate's low 20 bits in place above twelve zero bits.
pub proof fn lemma_u_word_decodes(opcode: u32, rd: u32, v: i32)
    requires
        opcode < 128,
        rd < 32,
    ensures
        ({
            let w = u_word(opcode, rd, (v as u32) & 0xfffff);
            &&& crate::machine::opcode(w) == opcode
            &&& crate::machine::rd(w) == rd
            &&& crate::machine::imm_u(w) == ((v as u32) << 12u32) as i32
        }),
{
    let imm = (v as u32) & 0xfffff;
    let w = u_word(opcode, rd, imm);
    assert(field(w, 0, 6) == opcode && field(w, 7, 11) == rd && (field(w, 12, 31) << 12u32) as i32
        == ((v as u32) << 12u32) as i32) by (bit_vector)
        requires
            w == opcode | (rd << 7u32) | (imm << 12u32),
            imm == (v as u32) & 0xfffff,
            opcode < 128,
            rd < 32,
    ;
}

/// Decoding a store word gives back its opcode, registers and function
/// field, and an offset in -2048..2048 as it was written.
pub proof fn lemma_s_word_decodes(opcode: u32, f3: u32, rs1: u32, rs2: u32, v: i32)
    requires
        opcode < 128,
        f3 < 8,
        rs1 < 32,
        rs2 < 32,
        -2048 <= v < 2048,
    ensures
        ({
            let w = s_word(opcode, f3, rs1, rs2, (v as u32) & 0xfff);
            &&& crate::machine::opcode(w) == opcode
            &&& crate::machine::funct3(w) == f3
            &&& crate::machine::rs1(w) == rs1
            &&& crate::machine::rs2(w) == rs2
            &&& crate::machine::imm_s(w) == v
        }),
{
    let imm = (v as u32) & 0xfff;
    let w = s_word(opcode, f3, rs1, rs2, imm);
    let x = ((field(w, 25, 31) << 5u32) | field(w, 7, 11)) as i32;
    assert(field(w, 0, 6) == opcode && field(w, 12, 14) == f3 && field(w, 15, 19) == rs1 && field(
        w,
        20,
        24,
    ) == rs2 && x == imm as i32) by (bit_vector)
        requires
            w == opcode | ((imm & 0x1f) << 7u32) | (rs1 << 15u32) | (f3 << 12u32) | (rs2 << 20u32)
                | (((imm >> 5u32) & 0x7f) << 25u32),
            imm == (v as u32) & 0xfff,
            x == ((field(w, 25, 31) << 5u32) | field(w, 7, 11)) as i32,
            opcode < 128,
            f3 < 8,
            rs1 < 32,
            rs2 < 32,
    ;
    assert(spec_sextend(x, 12) == v) by (bit_vector)
        requires
            x == ((v as u32) & 0xfff) as i32,
            -2048 <= v < 2048,
    ;
}

/// Decoding a branch word gives back its opcode, registers and function
/// field, and an even offset in -4096..4096 as it was written.
pub proof fn lemma_b_word_decodes(opcode: u32, f3: u32, rs1: u32, rs2: u32, v: i32)
    requires
        opcode < 128,
        f3 < 8,
        rs1 < 32,
        rs2 < 32,
        -4096 <= v < 4096,
        v % 2 == 0,
    ensures
        ({
            let w = b_word(opcode, f3, rs1, rs2, (v as u32) & 0x1fff);
            &&& crate::machine::opcode(w) == opcode
            &&& crate::machine::funct3(w) == f3
            &&& crate::machine::rs1(w) == rs1
            &&& crate::machine::rs2(w) == rs2
            &&& crate::machine::imm_b(w) == v
        }),
{
    let off = (v as u32) & 0x1fff;
    let w = b_word(opcode, f3, rs1, rs2, off);
    let x = ((field(w, 31, 31) << 12u32) | (field(w, 7, 7) << 11u32) | (field(w, 25, 30) << 5u32) | (
    field(w, 8, 11) << 1u32)) as i32;
    assert(field(w, 0, 6) == opcode && field(w, 12, 14) == f3 && field(w, 15, 19) == rs1 && field(
        w,
        20,
        24,
    ) == rs2 && spec_sextend(x, 13) == v) by (bit_vector)
        requires
            w == opcode | (((off >> 11u32) & 0x1) << 7u32) | (((off >> 1u32) & 0xf) << 8u32) | (f3
                << 12u32) | (rs1 << 15u32) | (rs2 << 20u32) | (((off >> 5u32) & 0x3f) << 25u32) | (((
            off >> 12u32) & 0x1) << 31u32),
            off == (v as u32) & 0x1fff,
            x == ((field(w, 31, 31) << 12u32) | (field(w, 7, 7) << 11u32) | (field(w, 25, 30) << 5u32)
                | (field(w, 8, 11) << 1u32)) as i32,
            -4096 <= v < 4096,
            v % 2 == 0,
            opcode < 128,
            f3 < 8,
            rs1 < 32,
            rs2 < 32,
    ;
}

/// Decoding a `jal` word gives back its opcode and register, and an even
/// offset in -2^20..2^20 (±1 MiB) as it was written.
pub proof fn lemma_j_word_decodes(opcode: u32, rd: u32, v: i32)
    requires
        opcode < 128,
        rd < 32,
        -0x10_0000 <= v < 0x10_0000,
        v % 2 == 0,
    ensures
        ({
            let w = j_word(opcode, rd, (v as u32) & 0x1fffff);
            &&& crate::machine::opcode(w) == opcode
            &&& crate::machine::rd(w) == rd
            &&& crate::machine::imm_j(w) == v
        }),
{
    let off = (v as u32) & 0x1fffff;
    let w = j_word(opcode, rd, off);
    let x = ((field(w, 31, 31) << 20u32) | (field(w, 12, 19) << 12u32) | (field(w, 20, 20) << 11u32)
        | (field(w, 21, 30) << 1u32)) as i32;
    assert(field(w, 0, 6) == opcode && field(w, 7, 11) == rd && spec_sextend(x, 21) == v) by (bit_vector)
        requires
            w == opcode | (rd << 7u32) | (((off >> 12u32) & 0xff) << 12u32) | (((off >> 11u32)
                & 0x1) << 20u32) | (((off >> 1u32) & 0x3ff) << 21u32) | (((off >> 20u32) & 0x1)
                << 31u32),
            off == (v as u32) & 0x1fffff,
            x == ((field(w, 31, 31) << 20u32) | (field(w, 12, 19) << 12u32) | (field(w, 20, 20)
                << 11u32) | (field(w, 21, 30) << 1u32)) as i32,
            -0x10_0000 <= v < 0x10_0000,
            v % 2 == 0,
            opcode < 128,
            rd < 32,
    ;
}

} // verus!
