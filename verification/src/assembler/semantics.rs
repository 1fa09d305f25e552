use vstd::prelude::*;

use crate::assembler::encode::{funct7, mnemonic};
use crate::decoder::field;
use crate::devices::{mem_loaded, mem_stored};
use crate::machine::{
    alu, branch_taken, funct3, funct7 as word_funct7, imm_i, load_bits, op_imm_value, opcode, tdiv,
    trem, OP_AUIPC, OP_BRANCH, OP_IMM, OP_JAL, OP_JALR, OP_LOAD, OP_LUI, OP_REG, OP_STORE, OP_SYSTEM,
};
use crate::memory::StandardAccess;
use vstd::wrapping::i32_specs;

verus! {

// What the core does with the words the assembler writes for each mnemonic.

/// The characters of the mnemonics.
proof fn lemma_mnemonic_spelling()
    ensures
        "lui"@.len() == 3,
        "lui"@[0] == 'l',
        "lui"@[1] == 'u',
        "lui"@[2] == 'i',
        "auipc"@.len() == 5,
        "auipc"@[0] == 'a',
        "auipc"@[1] == 'u',
        "auipc"@[2] == 'i',
        "auipc"@[3] == 'p',
        "auipc"@[4] == 'c',
        "jal"@.len() == 3,
        "jal"@[0] == 'j',
        "jal"@[1] == 'a',
        "jal"@[2] == 'l',
        "jalr"@.len() == 4,
        "jalr"@[0] == 'j',
        "jalr"@[1] == 'a',
        "jalr"@[2] == 'l',
        "jalr"@[3] == 'r',
        "beq"@.len() == 3,
        "beq"@[0] == 'b',
        "beq"@[1] == 'e',
        "beq"@[2] == 'q',
        "bne"@.len() == 3,
        "bne"@[0] == 'b',
        "bne"@[1] == 'n',
        "bne"@[2] == 'e',
        "blt"@.len() == 3,
        "blt"@[0] == 'b',
        "blt"@[1] == 'l',
        "blt"@[2] == 't',
        "bge"@.len() == 3,
        "bge"@[0] == 'b',
        "bge"@[1] == 'g',
        "bge"@[2] == 'e',
        "bltu"@.len() == 4,
        "bltu"@[0] == 'b',
        "bltu"@[1] == 'l',
        "bltu"@[2] == 't',
        "bltu"@[3] == 'u',
        "bgeu"@.len() == 4,
        "bgeu"@[0] == 'b',
        "bgeu"@[1] == 'g',
        "bgeu"@[2] == 'e',
        "bgeu"@[3] == 'u',
        "lb"@.len() == 2,
        "lb"@[0] == 'l',
        "lb"@[1] == 'b',
        "lh"@.len() == 2,
        "lh"@[0] == 'l',
        "lh"@[1] == 'h',
        "lw"@.len() == 2,
        "lw"@[0] == 'l',
        "lw"@[1] == 'w',
        "lbu"@.len() == 3,
        "lbu"@[0] == 'l',
        "lbu"@[1] == 'b',
        "lbu"@[2] == 'u',
        "lhu"@.len() == 3,
        "lhu"@[0] == 'l',
        "lhu"@[1] == 'h',
        "lhu"@[2] == 'u',
        "sb"@.len() == 2,
        "sb"@[0] == 's',
        "sb"@[1] == 'b',
        "sh"@.len() == 2,
        "sh"@[0] == 's',
        "sh"@[1] == 'h',
        "sw"@.len() == 2,
        "sw"@[0] == 's',
        "sw"@[1] == 'w',
        "addi"@.len() == 4,
        "addi"@[0] == 'a',
        "addi"@[1] == 'd',
        "addi"@[2] == 'd',
        "addi"@[3] == 'i',
        "slti"@.len() == 4,
        "slti"@[0] == 's',
        "slti"@[1] == 'l',
        "slti"@[2] == 't',
        "slti"@[3] == 'i',
        "sltiu"@.len() == 5,
        "sltiu"@[0] == 's',
        "sltiu"@[1] == 'l',
        "sltiu"@[2] == 't',
        "sltiu"@[3] == 'i',
        "sltiu"@[4] == 'u',
        "xori"@.len() == 4,
        "xori"@[0] == 'x',
        "xori"@[1] == 'o',
        "xori"@[2] == 'r',
        "xori"@[3] == 'i',
        "ori"@.len() == 3,
        "ori"@[0] == 'o',
        "ori"@[1] == 'r',
        "ori"@[2] == 'i',
        "andi"@.len() == 4,
        "andi"@[0] == 'a',
        "andi"@[1] == 'n',
        "andi"@[2] == 'd',
        "andi"@[3] == 'i',
        "srli"@.len() == 4,
        "srli"@[0] == 's',
        "srli"@[1] == 'r',
        "srli"@[2] == 'l',
        "srli"@[3] == 'i',
        "slli"@.len() == 4,
        "slli"@[0] == 's',
        "slli"@[1] == 'l',
        "slli"@[2] == 'l',
        "slli"@[3] == 'i',
        "srai"@.len() == 4,
        "srai"@[0] == 's',
        "srai"@[1] == 'r',
        "srai"@[2] == 'a',
        "srai"@[3] == 'i',
        "add"@.len() == 3,
        "add"@[0] == 'a',
        "add"@[1] == 'd',
        "add"@[2] == 'd',
        "sub"@.len() == 3,
        "sub"@[0] == 's',
        "sub"@[1] == 'u',
        "sub"@[2] == 'b',
        "sll"@.len() == 3,
        "sll"@[0] == 's',
        "sll"@[1] == 'l',
        "sll"@[2] == 'l',
        "slt"@.len() == 3,
        "slt"@[0] == 's',
        "slt"@[1] == 'l',
        "slt"@[2] == 't',
        "sltu"@.len() == 4,
        "sltu"@[0] == 's',
        "sltu"@[1] == 'l',
        "sltu"@[2] == 't',
        "sltu"@[3] == 'u',
        "xor"@.len() == 3,
        "xor"@[0] == 'x',
        "xor"@[1] == 'o',
        "xor"@[2] == 'r',
        "srl"@.len() == 3,
        "srl"@[0] == 's',
        "srl"@[1] == 'r',
        "srl"@[2] == 'l',
        "sra"@.len() == 3,
        "sra"@[0] == 's',
        "sra"@[1] == 'r',
        "sra"@[2] == 'a',
        "or"@.len() == 2,
        "or"@[0] == 'o',
        "or"@[1] == 'r',
        "and"@.len() == 3,
        "and"@[0] == 'a',
        "and"@[1] == 'n',
        "and"@[2] == 'd',
        "mul"@.len() == 3,
        "mul"@[0] == 'm',
        "mul"@[1] == 'u',
        "mul"@[2] == 'l',
        "mulh"@.len() == 4,
        "mulh"@[0] == 'm',
        "mulh"@[1] == 'u',
        "mulh"@[2] == 'l',
        "mulh"@[3] == 'h',
        "mulhsu"@.len() == 6,
        "mulhsu"@[0] == 'm',
        "mulhsu"@[1] == 'u',
        "mulhsu"@[2] == 'l',
        "mulhsu"@[3] == 'h',
        "mulhsu"@[4] == 's',
        "mulhsu"@[5] == 'u',
        "mulhu"@.len() == 5,
        "mulhu"@[0] == 'm',
        "mulhu"@[1] == 'u',
        "mulhu"@[2] == 'l',
        "mulhu"@[3] == 'h',
        "mulhu"@[4] == 'u',
        "div"@.len() == 3,
        "div"@[0] == 'd',
        "div"@[1] == 'i',
        "div"@[2] == 'v',
        "divu"@.len() == 4,
        "divu"@[0] == 'd',
        "divu"@[1] == 'i',
        "divu"@[2] == 'v',
        "divu"@[3] == 'u',
        "rem"@.len() == 3,
        "rem"@[0] == 'r',
        "rem"@[1] == 'e',
        "rem"@[2] == 'm',
        "remu"@.len() == 4,
        "remu"@[0] == 'r',
        "remu"@[1] == 'e',
        "remu"@[2] == 'm',
        "remu"@[3] == 'u',
        "fence"@.len() == 5,
        "fence"@[0] == 'f',
        "fence"@[1] == 'e',
        "fence"@[2] == 'n',
        "fence"@[3] == 'c',
        "fence"@[4] == 'e',
        "fence.tso"@.len() == 9,
        "fence.tso"@[0] == 'f',
        "fence.tso"@[1] == 'e',
        "fence.tso"@[2] == 'n',
        "fence.tso"@[3] == 'c',
        "fence.tso"@[4] == 'e',
        "fence.tso"@[5] == '.',
        "fence.tso"@[6] == 't',
        "fence.tso"@[7] == 's',
        "fence.tso"@[8] == 'o',
        "pause"@.len() == 5,
        "pause"@[0] == 'p',
        "pause"@[1] == 'a',
        "pause"@[2] == 'u',
        "pause"@[3] == 's',
        "pause"@[4] == 'e',
        "ebreak"@.len() == 6,
        "ebreak"@[0] == 'e',
        "ebreak"@[1] == 'b',
        "ebreak"@[2] == 'r',
        "ebreak"@[3] == 'e',
        "ebreak"@[4] == 'a',
        "ebreak"@[5] == 'k',
        "ecall"@.len() == 5,
        "ecall"@[0] == 'e',
        "ecall"@[1] == 'c',
        "ecall"@[2] == 'a',
        "ecall"@[3] == 'l',
        "ecall"@[4] == 'l',
{
    reveal_strlit("lui");
    reveal_strlit("auipc");
    reveal_strlit("jal");
    reveal_strlit("jalr");
    reveal_strlit("beq");
    reveal_strlit("bne");
    reveal_strlit("blt");
    reveal_strlit("bge");
    reveal_strlit("bltu");
    reveal_strlit("bgeu");
    reveal_strlit("lb");
    reveal_strlit("lh");
    reveal_strlit("lw");
    reveal_strlit("lbu");
    reveal_strlit("lhu");
    reveal_strlit("sb");
    reveal_strlit("sh");
    reveal_strlit("sw");
    reveal_strlit("addi");
    reveal_strlit("slti");
    reveal_strlit("sltiu");
    reveal_strlit("xori");
    reveal_strlit("ori");
    reveal_strlit("andi");
    reveal_strlit("srli");
    reveal_strlit("slli");
    reveal_strlit("srai");
    reveal_strlit("add");
    reveal_strlit("sub");
    reveal_strlit("sll");
    reveal_strlit("slt");
    reveal_strlit("sltu");
    reveal_strlit("xor");
    reveal_strlit("srl");
    reveal_strlit("sra");
    reveal_strlit("or");
    reveal_strlit("and");
    reveal_strlit("mul");
    reveal_strlit("mulh");
    reveal_strlit("mulhsu");
    reveal_strlit("mulhu");
    reveal_strlit("div");
    reveal_strlit("divu");
    reveal_strlit("rem");
    reveal_strlit("remu");
    reveal_strlit("fence");
    reveal_strlit("fence.tso");
    reveal_strlit("pause");
    reveal_strlit("ebreak");
    reveal_strlit("ecall");
}

/// Whether word `i` carries the opcode and `funct3` that the assembler
/// writes for mnemonic `op`.
pub open spec fn carries(op: Seq<char>, i: u32) -> bool {
    opcode(i) == mnemonic(op).0 && funct3(i) == mnemonic(op).1
}

/// Whether word `i` carries all that the assembler writes for the
/// register-register or shift mnemonic `op`: opcode, `funct3` and `funct7`.
pub open spec fn carries_all(op: Seq<char>, i: u32) -> bool {
    carries(op, i) && word_funct7(i) == funct7(op)
}

/// The register-immediate mnemonics do what they are named for: a word
/// carrying what the assembler writes for one of them is an OP-IMM
/// instruction whose result, from `rs1 = a` and the immediate, is the
/// sum, the signed or unsigned less-than, the exclusive or, or, and, or the
/// left, logical right or arithmetic right shift by the shift amount.
pub proof fn lemma_op_imm_mnemonics(a: i32, i: u32)
    ensures
        carries("addi"@, i) ==> opcode(i) == OP_IMM && op_imm_value(a, i) == i32_specs::wrapping_add(
            a,
            imm_i(i),
        ),
        carries("slti"@, i) ==> opcode(i) == OP_IMM && op_imm_value(a, i) == (if (a as int) < (
        imm_i(i) as int) {
            1i32
        } else {
            0i32
        }),
        carries("sltiu"@, i) ==> opcode(i) == OP_IMM && op_imm_value(a, i) == (if ((a as u32) as int)
            < ((imm_i(i) as u32) as int) {
            1i32
        } else {
            0i32
        }),
        carries("xori"@, i) ==> opcode(i) == OP_IMM && op_imm_value(a, i) == a ^ imm_i(i),
        carries("ori"@, i) ==> opcode(i) == OP_IMM && op_imm_value(a, i) == a | imm_i(i),
        carries("andi"@, i) ==> opcode(i) == OP_IMM && op_imm_value(a, i) == a & imm_i(i),
        carries_all("slli"@, i) ==> opcode(i) == OP_IMM && op_imm_value(a, i) == a << field(i, 20, 24),
        carries_all("srli"@, i) ==> opcode(i) == OP_IMM && op_imm_value(a, i) == ((a as u32) >> field(
            i,
            20,
            24,
        )) as i32,
        carries_all("srai"@, i) ==> opcode(i) == OP_IMM && op_imm_value(a, i) == a >> field(i, 20, 24),
{
    lemma_mnemonic_spelling();
}

/// The register-register mnemonics do what they are named for: a word
/// carrying what the assembler writes for one of them is an OP instruction
/// whose result, from `rs1 = a` and `rs2 = b`, is the wrapping sum,
/// difference or product, the shifts by the low five bits of `b`, the
/// comparisons, the bitwise operations, the high words of the signed,
/// signed-by-unsigned and unsigned products, and the M extension's
/// division and remainder (by zero: all ones and the dividend; on signed
/// overflow: the dividend and zero).
pub proof fn lemma_op_mnemonics(a: i32, b: i32, i: u32)
    ensures
        carries_all("add"@, i) ==> opcode(i) == OP_REG && alu(a, b, word_funct7(i), funct3(i)) == Some(
            i32_specs::wrapping_add(a, b),
        ),
        carries_all("sub"@, i) ==> opcode(i) == OP_REG && alu(a, b, word_funct7(i), funct3(i)) == Some(
            i32_specs::wrapping_sub(a, b),
        ),
        carries_all("sll"@, i) ==> opcode(i) == OP_REG && alu(a, b, word_funct7(i), funct3(i)) == Some(
            a << ((b & 0x1f) as u32),
        ),
        carries_all("slt"@, i) ==> opcode(i) == OP_REG && alu(a, b, word_funct7(i), funct3(i)) == Some(
            if (a as int) < (b as int) {
                1i32
            } else {
                0i32
            },
        ),
        carries_all("sltu"@, i) ==> opcode(i) == OP_REG && alu(a, b, word_funct7(i), funct3(i))
            == Some(
            if ((a as u32) as int) < ((b as u32) as int) {
                1i32
            } else {
                0i32
            },
        ),
        carries_all("xor"@, i) ==> opcode(i) == OP_REG && alu(a, b, word_funct7(i), funct3(i)) == Some(
            a ^ b,
        ),
        carries_all("srl"@, i) ==> opcode(i) == OP_REG && alu(a, b, word_funct7(i), funct3(i)) == Some(
            ((a as u32) >> ((b & 0x1f) as u32)) as i32,
        ),
        carries_all("sra"@, i) ==> opcode(i) == OP_REG && alu(a, b, word_funct7(i), funct3(i)) == Some(
            a >> ((b & 0x1f) as u32),
        ),
        carries_all("or"@, i) ==> opcode(i) == OP_REG && alu(a, b, word_funct7(i), funct3(i)) == Some(
            a | b,
        ),
        carries_all("and"@, i) ==> opcode(i) == OP_REG && alu(a, b, word_funct7(i), funct3(i)) == Some(
            a & b,
        ),
        carries_all("mul"@, i) ==> opcode(i) == OP_REG && alu(a, b, word_funct7(i), funct3(i)) == Some(
            i32_specs::wrapping_mul(a, b),
        ),
        carries_all("mulh"@, i) ==> opcode(i) == OP_REG && alu(a, b, word_funct7(i), funct3(i)) == Some(
            (((a as i64) * (b as i64)) as i64 >> 32u32) as i32,
        ),
        carries_all("mulhsu"@, i) ==> opcode(i) == OP_REG && alu(a, b, word_funct7(i), funct3(i))
            == Some((((a as i64) * ((b as u32) as i64)) as i64 >> 32u32) as i32),
        carries_all("mulhu"@, i) ==> opcode(i) == OP_REG && alu(a, b, word_funct7(i), funct3(i))
            == Some((((a as u32) as u64 * (b as u32) as u64) as u64 >> 32u32) as i32),
        carries_all("div"@, i) ==> opcode(i) == OP_REG && alu(a, b, word_funct7(i), funct3(i)) == Some(
            if b == 0 {
                -1i32
            } else if a == i32::MIN && b == -1 {
                i32::MIN
            } else {
                tdiv(a as int, b as int) as i32
            },
        ),
        carries_all("divu"@, i) ==> opcode(i) == OP_REG && alu(a, b, word_funct7(i), funct3(i))
            == Some(
            if b == 0 {
                -1i32
            } else {
                ((a as u32) / (b as u32)) as i32
            },
        ),
        carries_all("rem"@, i) ==> opcode(i) == OP_REG && alu(a, b, word_funct7(i), funct3(i)) == Some(
            if b == 0 {
                a
            } else if a == i32::MIN && b == -1 {
                0i32
            } else {
                trem(a as int, b as int) as i32
            },
        ),
        carries_all("remu"@, i) ==> opcode(i) == OP_REG && alu(a, b, word_funct7(i), funct3(i))
            == Some(
            if b == 0 {
                a
            } else {
                ((a as u32) % (b as u32)) as i32
            },
        ),
{
    lemma_mnemonic_spelling();
}

/// The branch mnemonics test what they are named for: a word carrying what
/// the assembler writes for one of them is a branch taken, from `rs1 = a`
/// and `rs2 = b`, exactly when `a == b`, `a != b`, `a < b` signed,
/// `a >= b` signed, `a < b` unsigned or `a >= b` unsigned.
pub proof fn lemma_branch_mnemonics(a: i32, b: i32, i: u32)
    ensures
        carries("beq"@, i) ==> opcode(i) == OP_BRANCH && branch_taken(a, b, funct3(i)) == Some(a == b),
        carries("bne"@, i) ==> opcode(i) == OP_BRANCH && branch_taken(a, b, funct3(i)) == Some(a != b),
        carries("blt"@, i) ==> opcode(i) == OP_BRANCH && branch_taken(a, b, funct3(i)) == Some(
            (a as int) < (b as int),
        ),
        carries("bge"@, i) ==> opcode(i) == OP_BRANCH && branch_taken(a, b, funct3(i)) == Some(
            (a as int) >= (b as int),
        ),
        carries("bltu"@, i) ==> opcode(i) == OP_BRANCH && branch_taken(a, b, funct3(i)) == Some(
            ((a as u32) as int) < ((b as u32) as int),
        ),
        carries("bgeu"@, i) ==> opcode(i) == OP_BRANCH && branch_taken(a, b, funct3(i)) == Some(
            ((a as u32) as int) >= ((b as u32) as int),
        ),
{
    lemma_mnemonic_spelling();
}

/// The load and store mnemonics move what they are named for: a word
/// carrying what the assembler writes for `lb`, `lh`, `lw`, `lbu` or `lhu`
/// is a load of a byte, half word or word (width 0, 1, 2) from memory,
/// sign-extended from 8, 16 or 32 bits for the first three and taken as
/// it is (unsigned) for the last two; one for `sb`, `sh` or `sw` is a store
/// of a byte, half word or word.
pub proof fn lemma_memory_mnemonics<M: StandardAccess>(m: M, after: M, addr: u32, v: i32, i: u32, lr: Result<
    i32,
    crate::risclib::Trap,
>, sr: Result<(), crate::risclib::Trap>)
    ensures
        carries("lb"@, i) ==> opcode(i) == OP_LOAD && funct3(i) < 3 && load_bits(funct3(i)) == 8
            && mem_loaded(m, addr, addr, funct3(i) as u8, lr) == m.loaded(addr, 0, false, lr),
        carries("lh"@, i) ==> opcode(i) == OP_LOAD && funct3(i) < 3 && load_bits(funct3(i)) == 16
            && mem_loaded(m, addr, addr, funct3(i) as u8, lr) == m.loaded(addr, 1, false, lr),
        carries("lw"@, i) ==> opcode(i) == OP_LOAD && funct3(i) < 3 && load_bits(funct3(i)) == 32
            && mem_loaded(m, addr, addr, funct3(i) as u8, lr) == m.loaded(addr, 2, false, lr),
        carries("lbu"@, i) ==> opcode(i) == OP_LOAD && funct3(i) > 3 && mem_loaded(
            m,
            addr,
            addr,
            funct3(i) as u8,
            lr,
        ) == m.loaded(addr, 0, true, lr),
        carries("lhu"@, i) ==> opcode(i) == OP_LOAD && funct3(i) > 3 && mem_loaded(
            m,
            addr,
            addr,
            funct3(i) as u8,
            lr,
        ) == m.loaded(addr, 1, true, lr),
        carries("sb"@, i) ==> opcode(i) == OP_STORE && mem_stored(m, after, addr, v, funct3(i) as u8, sr)
            == m.stored(after, addr, 0, v, sr),
        carries("sh"@, i) ==> opcode(i) == OP_STORE && mem_stored(m, after, addr, v, funct3(i) as u8, sr)
            == m.stored(after, addr, 1, v, sr),
        carries("sw"@, i) ==> opcode(i) == OP_STORE && mem_stored(m, after, addr, v, funct3(i) as u8, sr)
            == m.stored(after, addr, 2, v, sr),
{
    lemma_mnemonic_spelling();
}

/// The other mnemonics name their opcodes: `lui`, `auipc`, `jal` and
/// `jalr` the upper-immediate and jump instructions, `ecall` and `ebreak`
/// the SYSTEM instructions.
pub proof fn lemma_other_mnemonics()
    ensures
        mnemonic("lui"@).0 == OP_LUI,
        mnemonic("auipc"@).0 == OP_AUIPC,
        mnemonic("jal"@).0 == OP_JAL,
        mnemonic("jalr"@).0 == OP_JALR,
        mnemonic("ecall"@).0 == OP_SYSTEM,
        mnemonic("ebreak"@).0 == OP_SYSTEM,
{
    lemma_mnemonic_spelling();
}

} // verus!
