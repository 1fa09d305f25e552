use vstd::prelude::*;

use crate::decoder::{fetch as field_of, field, lemma_field_bounds};
use crate::devices::Bus;
use crate::risclib::{sextend, spec_sextend, trap_code, Trap};
use vstd::wrapping::{i32_specs, u32_specs};

verus! {

pub const MXLEN: usize = 32;

pub const XLEN: usize = 32;

/// Instruction alignment, in bits.
pub const IALIGN: usize = 32;

/// Where execution restarts after a reset.
pub const RESET_VECTOR: u32 = 0x00000000;

/// Where execution goes when an instruction cannot be fetched.
pub const NMI_VECTOR: u32 = 0x00001000;

/// `misa.MXL` for RV32.
pub const MXL: u32 = 0b01;

/// `misa` extension bits: I and M.
pub const MISAE: u32 = 0b00_0000_0000_0001_0001_0000_0000;

pub const MISA: usize = 0x301;

pub const MIE: usize = 0x304;

pub const MEPC: usize = 0x341;

pub const MCAUSE: usize = 0x342;

pub const OP_LUI: u32 = 0b0110111;

pub const OP_AUIPC: u32 = 0b0010111;

pub const OP_JAL: u32 = 0b1101111;

pub const OP_JALR: u32 = 0b1100111;

pub const OP_BRANCH: u32 = 0b1100011;

pub const OP_LOAD: u32 = 0b0000011;

pub const OP_STORE: u32 = 0b0100011;

pub const OP_IMM: u32 = 0b0010011;

pub const OP_REG: u32 = 0b0110011;

pub const OP_FENCE: u32 = 0b0001111;

pub const OP_SYSTEM: u32 = 0b1110011;

// ---------------------------------------------------------------------------
// Instruction fields.

pub open spec fn opcode(i: u32) -> u32 {
    field(i, 0, 6)
}

pub open spec fn rd(i: u32) -> int {
    field(i, 7, 11) as int
}

pub open spec fn funct3(i: u32) -> u32 {
    field(i, 12, 14)
}

pub open spec fn rs1(i: u32) -> int {
    field(i, 15, 19) as int
}

pub open spec fn rs2(i: u32) -> int {
    field(i, 20, 24) as int
}

pub open spec fn funct7(i: u32) -> u32 {
    field(i, 25, 31)
}

/// The I-type immediate, sign-extended.
pub open spec fn imm_i(i: u32) -> i32 {
    spec_sextend(field(i, 20, 31) as i32, 12)
}

/// The S-type immediate, sign-extended.
pub open spec fn imm_s(i: u32) -> i32 {
    spec_sextend(((field(i, 25, 31) << 5u32) | field(i, 7, 11)) as i32, 12)
}

/// The B-type offset, sign-extended from its 13 bits.
pub open spec fn imm_b(i: u32) -> i32 {
    spec_sextend(
        ((field(i, 31, 31) << 12u32) | (field(i, 7, 7) << 11u32) | (field(i, 25, 30) << 5u32) | (
        field(i, 8, 11) << 1u32)) as i32,
        13,
    )
}

/// The J-type offset, sign-extended from its bit 20 (a reach of ±1 MiB).
pub open spec fn imm_j(i: u32) -> i32 {
    spec_sextend(
        ((field(i, 31, 31) << 20u32) | (field(i, 12, 19) << 12u32) | (field(i, 20, 20) << 11u32) | (
        field(i, 21, 30) << 1u32)) as i32,
        21,
    )
}

/// The upper immediate of LUI and AUIPC, in place.
pub open spec fn imm_u(i: u32) -> i32 {
    (field(i, 12, 31) << 12u32) as i32
}

// ---------------------------------------------------------------------------
// Arithmetic.

pub open spec fn abs(a: int) -> int {
    if a < 0 {
        -a
    } else {
        a
    }
}

/// Division rounding toward zero.
pub open spec fn tdiv(a: int, b: int) -> int {
    if (a < 0) == (b < 0) {
        abs(a) / abs(b)
    } else {
        -(abs(a) / abs(b))
    }
}

/// The remainder of division rounding toward zero: the sign of the dividend.
pub open spec fn trem(a: int, b: int) -> int {
    if a < 0 {
        -(abs(a) % abs(b))
    } else {
        abs(a) % abs(b)
    }
}

/// The value an OP-IMM instruction writes, given `rs1`.
pub open spec fn op_imm_value(a: i32, i: u32) -> i32 {
    let imm = imm_i(i);
    let f3 = funct3(i);
    let sh = field(i, 20, 24);
    if f3 == 0 {
        i32_specs::wrapping_add(a, imm)
    } else if f3 == 2 {
        if a < imm {
            1
        } else {
            0
        }
    } else if f3 == 3 {
        if (a as u32) < (imm as u32) {
            1
        } else {
            0
        }
    } else if f3 == 4 {
        a ^ imm
    } else if f3 == 6 {
        a | imm
    } else if f3 == 7 {
        a & imm
    } else if f3 == 1 {
        a << sh
    } else if funct7(i) == 0 {
        ((a as u32) >> sh) as i32
    } else {
        a >> sh
    }
}

/// The value an OP instruction writes, given `rs1` and `rs2`; `None` for the
/// combinations of `funct7` and `funct3` that name no instruction. Division
/// and remainder follow the M extension: by zero the quotient is all ones and
/// the remainder the dividend; on signed overflow the quotient is the dividend
/// and the remainder zero.
pub open spec fn alu(a: i32, b: i32, f7: u32, f3: u32) -> Option<i32> {
    let sh = (b & 0x1f) as u32;
    if f7 == 0 && f3 == 0 {
        Some(i32_specs::wrapping_add(a, b))
    } else if f7 == 0x20 && f3 == 0 {
        Some(i32_specs::wrapping_sub(a, b))
    } else if f7 == 1 && f3 == 0 {
        Some(i32_specs::wrapping_mul(a, b))
    } else if f7 == 0 && f3 == 1 {
        Some(a << sh)
    } else if f7 == 1 && f3 == 1 {
        Some((((a as i64) * (b as i64)) as i64 >> 32u32) as i32)
    } else if f7 == 0 && f3 == 2 {
        Some(
            if a < b {
                1
            } else {
                0
            },
        )
    } else if f7 == 1 && f3 == 2 {
        Some((((a as i64) * ((b as u32) as i64)) as i64 >> 32u32) as i32)
    } else if f7 == 0 && f3 == 3 {
        Some(
            if (a as u32) < (b as u32) {
                1
            } else {
                0
            },
        )
    } else if f7 == 1 && f3 == 3 {
        Some((((a as u32) as u64 * (b as u32) as u64) as u64 >> 32u32) as i32)
    } else if f7 == 0 && f3 == 4 {
        Some(a ^ b)
    } else if f7 == 1 && f3 == 4 {
        Some(
            if b == 0 {
                -1i32
            } else if a == i32::MIN && b == -1 {
                i32::MIN
            } else {
                tdiv(a as int, b as int) as i32
            },
        )
    } else if f7 == 0 && f3 == 5 {
        Some(((a as u32) >> sh) as i32)
    } else if f7 == 0x20 && f3 == 5 {
        Some(a >> sh)
    } else if f7 == 1 && f3 == 5 {
        Some(
            if b == 0 {
                -1i32
            } else {
                ((a as u32) / (b as u32)) as i32
            },
        )
    } else if f7 == 0 && f3 == 6 {
        Some(a | b)
    } else if f7 == 1 && f3 == 6 {
        Some(
            if b == 0 {
                a
            } else if a == i32::MIN && b == -1 {
                0
            } else {
                trem(a as int, b as int) as i32
            },
        )
    } else if f7 == 0 && f3 == 7 {
        Some(a & b)
    } else if f7 == 1 && f3 == 7 {
        Some(
            if b == 0 {
                a
            } else {
                ((a as u32) % (b as u32)) as i32
            },
        )
    } else {
        None
    }
}

/// Whether a branch with the given `funct3` is taken; `None` for the two
/// `funct3` values that name no branch.
pub open spec fn branch_taken(a: i32, b: i32, f3: u32) -> Option<bool> {
    if f3 == 0 {
        Some(a == b)
    } else if f3 == 1 {
        Some(a != b)
    } else if f3 == 4 {
        Some(a < b)
    } else if f3 == 6 {
        Some((a as u32) < (b as u32))
    } else if f3 == 5 {
        Some(a >= b)
    } else if f3 == 7 {
        Some((a as u32) >= (b as u32))
    } else {
        None
    }
}

/// The number of significant bits of a signed load with the given `funct3`.
pub open spec fn load_bits(f3: u32) -> u32 {
    if f3 == 0 {
        8
    } else if f3 == 1 {
        16
    } else {
        32
    }
}

/// The CSR file after a CSR instruction with `funct3` `f3` writes CSR `c`;
/// `None` for the `funct3` values that name no CSR instruction.
pub open spec fn csr_write(csr: Seq<u32>, c: int, src: i32, uimm: u32, f3: u32) -> Option<Seq<u32>> {
    let t = csr[c];
    if f3 == 1 {
        Some(csr.update(c, src as u32))
    } else if f3 == 2 {
        Some(csr.update(c, (src as u32) | t))
    } else if f3 == 3 {
        Some(csr.update(c, t & !(src as u32)))
    } else if f3 == 5 {
        Some(csr.update(c, uimm))
    } else if f3 == 6 {
        Some(csr.update(c, uimm | t))
    } else if f3 == 7 {
        Some(csr.update(c, t & !uimm))
    } else {
        None
    }
}

/// The CSR file of a freshly made core: all zero but `misa`.
pub open spec fn initial_csr() -> Seq<u32> {
    Seq::new(4096, |i: int| 0u32).update(MISA as int, 0x4000_1100u32)
}

/// The trap a failed instruction fetch reports for a failed load.
pub open spec fn fetch_trap(t: Trap) -> Trap {
    match t {
        Trap::LOAD_ACCESS_FAULT => Trap::INSTRUCTION_ACCESS_FAULT,
        Trap::LOAD_ADDRESS_MISALIGNED => Trap::INSTRUCTION_ADDRESS_MISALIGNED,
        Trap::LOAD_PAGE_FAULT => Trap::INSTRUCTION_PAGE_FAULT,
        _ => t,
    }
}


// ---------------------------------------------------------------------------
// The hart.

/// One RV32IM hart with its CSRs and the bus it reaches memory and devices through.
pub struct Core {
    pub general_registers: Vec<i32>,
    pub pc: u32,
    pub csr: [u32; 4096],
    pub bus: Bus,
    pub entry: u32,
}

impl Core {
    /// 32 general registers, `x0` zero, and a well-formed bus.
    pub open spec fn wf(&self) -> bool {
        &&& self.general_registers@.len() == 32
        &&& self.general_registers@[0] == 0
        &&& self.bus.wf()
    }
}

/// The register file `regs` after `v` is written to register `d`: a write
/// to `x0` is dropped, so it stays zero.
pub open spec fn set_reg(regs: Seq<i32>, d: int, v: i32) -> Seq<i32> {
    if d == 0 {
        regs
    } else {
        regs.update(d, v)
    }
}

/// `n` is `c` with the register file `regs`.
pub open spec fn only_regs(c: Core, n: Core, regs: Seq<i32>) -> bool {
    &&& n.general_registers@ == regs
    &&& n.pc == c.pc
    &&& n.csr@ == c.csr@
    &&& n.bus == c.bus
    &&& n.entry == c.entry
}

/// `n` is `c` with the register file `regs` and the program counter `pc`.
pub open spec fn regs_and_pc(c: Core, n: Core, regs: Seq<i32>, pc: u32) -> bool {
    &&& n.general_registers@ == regs
    &&& n.pc == pc
    &&& n.csr@ == c.csr@
    &&& n.bus == c.bus
    &&& n.entry == c.entry
}

/// A load instruction's effect, given what the bus answered.
pub open spec fn load_effect(c: Core, regs: Seq<i32>, n: Core, i: u32, lr: Result<i32, Trap>, r: Result<(), Trap>) -> bool {
    match lr {
        Err(t) => r == Err::<(), Trap>(t) && only_regs(c, n, regs),
        Ok(v) => if funct3(i) == 3 {
            r == Err::<(), Trap>(Trap::ILLEGAL_INSTRUCTION) && only_regs(c, n, regs)
        } else if funct3(i) < 3 {
            r == Ok::<(), Trap>(()) && only_regs(
                c,
                n,
                set_reg(regs, rd(i), spec_sextend(v, load_bits(funct3(i)))),
            )
        } else {
            r == Ok::<(), Trap>(()) && only_regs(c, n, set_reg(regs, rd(i), v))
        },
    }
}

/// A SYSTEM instruction's effect: ECALL and EBREAK put their address in
/// `mepc` and trap, MRET jumps to `mepc`, and the CSR instructions write
/// their CSR and put its former value in `rd`.
pub open spec fn system_effect(c: Core, regs: Seq<i32>, n: Core, pc: u32, i: u32, r: Result<(), Trap>) -> bool {
    let csr1 = c.csr@;
    let imm = field(i, 20, 31);
    &&& n.bus == c.bus
    &&& n.entry == c.entry
    &&& if imm == 0 {
        r == Err::<(), Trap>(Trap::ENV_CALL_FROM_M) && n.csr@ == csr1.update(MEPC as int, pc)
            && n.general_registers@ == regs && n.pc == c.pc
    } else if imm == 1 {
        r == Err::<(), Trap>(Trap::BREAKPOINT) && n.csr@ == csr1.update(MEPC as int, pc)
            && n.general_registers@ == regs && n.pc == c.pc
    } else if imm == 0x302 {
        r == Ok::<(), Trap>(()) && n.csr@ == csr1 && n.general_registers@ == regs && n.pc
            == csr1[MEPC as int]
    } else {
        match csr_write(csr1, imm as int, regs[rs1(i)], field(i, 15, 19), funct3(i)) {
            Some(csr2) => r == Ok::<(), Trap>(()) && n.csr@ == csr2 && n.general_registers@
                == set_reg(regs, rd(i), csr1[imm as int] as i32) && n.pc == c.pc,
            None => r == Err::<(), Trap>(Trap::ILLEGAL_INSTRUCTION) && n.csr@ == csr1
                && n.general_registers@ == regs && n.pc == c.pc,
        }
    }
}

/// The effect of executing instruction `i`, fetched from `pc`, on core `c`
/// whose registers read as `regs`; `r` is the trap it raises, if any.
pub open spec fn executed(c: Core, regs: Seq<i32>, n: Core, pc: u32, i: u32, r: Result<(), Trap>) -> bool {
    let op = opcode(i);
    let x1 = regs[rs1(i)];
    let x2 = regs[rs2(i)];
    if op == OP_LUI {
        r == Ok::<(), Trap>(()) && only_regs(c, n, set_reg(regs, rd(i), imm_u(i)))
    } else if op == OP_AUIPC {
        r == Ok::<(), Trap>(()) && only_regs(
            c,
            n,
            set_reg(regs, rd(i), i32_specs::wrapping_add(pc as i32, imm_u(i))),
        )
    } else if op == OP_JAL {
        if imm_j(i) % 4 != 0 {
            r == Err::<(), Trap>(Trap::INSTRUCTION_ADDRESS_MISALIGNED) && only_regs(c, n, regs)
        } else {
            r == Ok::<(), Trap>(()) && regs_and_pc(
                c,
                n,
                set_reg(regs, rd(i), u32_specs::wrapping_add(pc, 4) as i32),
                i32_specs::wrapping_add(pc as i32, imm_j(i)) as u32,
            )
        }
    } else if op == OP_JALR {
        let target = i32_specs::wrapping_add(x1, imm_i(i)) as u32;
        if field(i, 20, 31) % 4 != 0 {
            r == Err::<(), Trap>(Trap::INSTRUCTION_ADDRESS_MISALIGNED) && only_regs(c, n, regs)
        } else {
            r == Ok::<(), Trap>(()) && regs_and_pc(
                c,
                n,
                set_reg(regs, rd(i), i32_specs::wrapping_add(pc as i32, 4)),
                target,
            )
        }
    } else if op == OP_BRANCH {
        match branch_taken(x1, x2, funct3(i)) {
            None => r == Err::<(), Trap>(Trap::ILLEGAL_INSTRUCTION) && only_regs(c, n, regs),
            Some(taken) => r == Ok::<(), Trap>(()) && regs_and_pc(
                c,
                n,
                regs,
                if taken {
                    i32_specs::wrapping_add(pc as i32, imm_b(i)) as u32
                } else {
                    c.pc
                },
            ),
        }
    } else if op == OP_LOAD {
        let addr = i32_specs::wrapping_add(x1, imm_i(i)) as u32;
        exists|lr: Result<i32, Trap>|
            c.bus.load_outcome(addr, funct3(i) as u8, lr) && #[trigger] load_effect(c, regs, n, i, lr, r)
    } else if op == OP_STORE {
        let addr = i32_specs::wrapping_add(x1, imm_s(i)) as u32;
        &&& c.bus.store_outcome(n.bus, addr, x2, funct3(i) as u8, r)
        &&& n.general_registers@ == regs
        &&& n.pc == c.pc
        &&& n.csr@ == c.csr@
        &&& n.entry == c.entry
    } else if op == OP_IMM {
        r == Ok::<(), Trap>(()) && only_regs(c, n, set_reg(regs, rd(i), op_imm_value(x1, i)))
    } else if op == OP_REG {
        match alu(x1, x2, funct7(i), funct3(i)) {
            Some(v) => r == Ok::<(), Trap>(()) && only_regs(c, n, set_reg(regs, rd(i), v)),
            None => r == Err::<(), Trap>(Trap::ILLEGAL_INSTRUCTION) && only_regs(c, n, regs),
        }
    } else if op == OP_FENCE {
        r == Ok::<(), Trap>(()) && only_regs(c, n, regs)
    } else if op == OP_SYSTEM {
        system_effect(c, regs, n, pc, i, r)
    } else {
        r == Err::<(), Trap>(Trap::ILLEGAL_INSTRUCTION) && only_regs(c, n, regs)
    }
}

/// Whether executing `i` completes: its load or store completes on the bus.
pub open spec fn executable(bus: Bus, regs: Seq<i32>, i: u32) -> bool {
    let x1 = regs[rs1(i)];
    if opcode(i) == OP_LOAD {
        bus.can_load(i32_specs::wrapping_add(x1, imm_i(i)) as u32, funct3(i) as u8)
    } else if opcode(i) == OP_STORE {
        bus.can_store(i32_specs::wrapping_add(x1, imm_s(i)) as u32, funct3(i) as u8)
    } else {
        true
    }
}


// ---------------------------------------------------------------------------
// Decoding and arithmetic, executable.

fn imm_i_of(i: u32) -> (v: i32)
    ensures
        v == imm_i(i),
{
    sextend(field_of(i, 20, 31), 12)
}

fn imm_s_of(i: u32) -> (v: i32)
    ensures
        v == imm_s(i),
{
    let hi = field_of(i, 25, 31) as u32;
    let lo = field_of(i, 7, 11) as u32;
    sextend(((hi << 5) | lo) as i32, 12)
}

fn imm_b_of(i: u32) -> (v: i32)
    ensures
        v == imm_b(i),
{
    let s11: u32 = field_of(i, 7, 7) as u32;
    let s1_4: u32 = field_of(i, 8, 11) as u32;
    let s5_10: u32 = field_of(i, 25, 30) as u32;
    let s12: u32 = field_of(i, 31, 31) as u32;
    sextend(((s12 << 12) | (s11 << 11) | (s5_10 << 5) | (s1_4 << 1)) as i32, 13)
}

fn imm_j_of(i: u32) -> (v: i32)
    ensures
        v == imm_j(i),
{
    let s12_19: u32 = field_of(i, 12, 19) as u32;
    let s11: u32 = field_of(i, 20, 20) as u32;
    let s1_10: u32 = field_of(i, 21, 30) as u32;
    let s20: u32 = field_of(i, 31, 31) as u32;
    sextend(((s20 << 20) | (s12_19 << 12) | (s11 << 11) | (s1_10 << 1)) as i32, 21)
}

fn imm_u_of(i: u32) -> (v: i32)
    ensures
        v == imm_u(i),
{
    ((field_of(i, 12, 31) as u32) << 12) as i32
}

/// Magnitude of a 32-bit signed value.
fn magnitude(a: i32) -> (m: u64)
    ensures
        m == abs(a as int),
        m <= 0x8000_0000,
{
    if a < 0 {
        (-(a as i64)) as u64
    } else {
        a as u64
    }
}

/// Signed division rounding toward zero.
fn div_trunc(a: i32, b: i32) -> (q: i32)
    requires
        b != 0,
        !(a == i32::MIN && b == -1),
    ensures
        q == tdiv(a as int, b as int),
{
    let ma = magnitude(a);
    let mb = magnitude(b);
    let m: u64 = ma / mb;
    assert(m <= ma) by (nonlinear_arith)
        requires m == ma / mb, mb >= 1;
    if (a < 0) != (b < 0) {
        (-(m as i64)) as i32
    } else {
        assert(m <= 0x7fff_ffff) by (nonlinear_arith)
            requires m == ma / mb, mb >= 1, ma <= 0x8000_0000, ma == 0x8000_0000 ==> mb >= 2;
        m as i32
    }
}

/// Signed remainder: the sign of the dividend.
fn rem_trunc(a: i32, b: i32) -> (r: i32)
    requires
        b != 0,
    ensures
        r == trem(a as int, b as int),
{
    let ma = magnitude(a);
    let mb = magnitude(b);
    let m: u64 = ma % mb;
    assert(m < mb);
    if a < 0 {
        (-(m as i64)) as i32
    } else {
        assert(m <= ma) by (nonlinear_arith)
            requires m == ma % mb, mb >= 1;
        m as i32
    }
}

proof fn lemma_nonzero_u32(b: i32)
    ensures
        b != 0 ==> (b as u32) != 0,
{
    assert(b != 0 ==> (b as u32) != 0) by (bit_vector);
}

/// The value an OP instruction writes; `None` where it names no instruction.
fn alu_exec(a: i32, b: i32, f7: u32, f3: u32) -> (r: Option<i32>)
    ensures
        r == alu(a, b, f7, f3),
{
    assert(0 <= b & 0x1f < 32) by (bit_vector);
    let sh: u32 = (b & 0x1f) as u32;
    if f7 == 0 && f3 == 0 {
        Some(a.wrapping_add(b))
    } else if f7 == 0x20 && f3 == 0 {
        Some(a.wrapping_sub(b))
    } else if f7 == 1 && f3 == 0 {
        Some(a.wrapping_mul(b))
    } else if f7 == 0 && f3 == 1 {
        Some(a << sh)
    } else if f7 == 1 && f3 == 1 {
        let a64: i64 = a as i64;
        let b64: i64 = b as i64;
        assert(-0x4000_0000_0000_0000 <= a64 * b64 <= 0x4000_0000_0000_0000) by (nonlinear_arith)
            requires -0x8000_0000 <= a64 <= 0x7fff_ffff, -0x8000_0000 <= b64 <= 0x7fff_ffff;
        let p: i64 = a64 * b64;
        let q: i64 = p >> 32u32;
        assert(-0x4000_0000 <= q <= 0x4000_0000) by (bit_vector)
            requires q == p >> 32u32, -0x4000_0000_0000_0000 <= p <= 0x4000_0000_0000_0000;
        Some(q as i32)
    } else if f7 == 0 && f3 == 2 {
        Some(
            if a < b {
                1
            } else {
                0
            },
        )
    } else if f7 == 1 && f3 == 2 {
        let a64: i64 = a as i64;
        let b64: i64 = (b as u32) as i64;
        assert(-0x7fff_ffff_8000_0000 <= a64 * b64 <= 0x7fff_fffe_8000_0001) by (nonlinear_arith)
            requires -0x8000_0000 <= a64 <= 0x7fff_ffff, 0 <= b64 <= 0xffff_ffff;
        let p: i64 = a64 * b64;
        let q: i64 = p >> 32u32;
        assert(-0x8000_0000 <= q <= 0x7fff_ffff) by (bit_vector)
            requires q == p >> 32u32, -0x7fff_ffff_8000_0000 <= p <= 0x7fff_fffe_8000_0001;
        Some(q as i32)
    } else if f7 == 0 && f3 == 3 {
        Some(
            if (a as u32) < (b as u32) {
                1
            } else {
                0
            },
        )
    } else if f7 == 1 && f3 == 3 {
        let a64: u64 = (a as u32) as u64;
        let b64: u64 = (b as u32) as u64;
        assert(a64 * b64 <= 0xffff_fffe_0000_0001) by (nonlinear_arith)
            requires a64 <= 0xffff_ffff, b64 <= 0xffff_ffff;
        let p: u64 = a64 * b64;
        Some(#[verifier::truncate] ((p >> 32u32) as i32))
    } else if f7 == 0 && f3 == 4 {
        Some(a ^ b)
    } else if f7 == 1 && f3 == 4 {
        Some(
            if b == 0 {
                -1
            } else if a == i32::MIN && b == -1 {
                i32::MIN
            } else {
                div_trunc(a, b)
            },
        )
    } else if f7 == 0 && f3 == 5 {
        Some(((a as u32) >> sh) as i32)
    } else if f7 == 0x20 && f3 == 5 {
        Some(a >> sh)
    } else if f7 == 1 && f3 == 5 {
        proof { lemma_nonzero_u32(b); }
        Some(
            if b == 0 {
                -1
            } else {
                ((a as u32) / (b as u32)) as i32
            },
        )
    } else if f7 == 0 && f3 == 6 {
        Some(a | b)
    } else if f7 == 1 && f3 == 6 {
        Some(
            if b == 0 {
                a
            } else if a == i32::MIN && b == -1 {
                0
            } else {
                rem_trunc(a, b)
            },
        )
    } else if f7 == 0 && f3 == 7 {
        Some(a & b)
    } else if f7 == 1 && f3 == 7 {
        proof { lemma_nonzero_u32(b); }
        Some(
            if b == 0 {
                a
            } else {
                ((a as u32) % (b as u32)) as i32
            },
        )
    } else {
        None
    }
}

/// The value an OP-IMM instruction writes.
fn op_imm_exec(a: i32, i: u32) -> (v: i32)
    ensures
        v == op_imm_value(a, i),
{
    let imm = imm_i_of(i);
    let f3 = field_of(i, 12, 14);
    let sh: u32 = field_of(i, 20, 24) as u32;
    assert(field(i, 20, 24) < 32) by (bit_vector);
    if f3 == 0 {
        a.wrapping_add(imm)
    } else if f3 == 2 {
        if a < imm {
            1
        } else {
            0
        }
    } else if f3 == 3 {
        if (a as u32) < (imm as u32) {
            1
        } else {
            0
        }
    } else if f3 == 4 {
        a ^ imm
    } else if f3 == 6 {
        a | imm
    } else if f3 == 7 {
        a & imm
    } else if f3 == 1 {
        a << sh
    } else if field_of(i, 25, 31) == 0 {
        ((a as u32) >> sh) as i32
    } else {
        a >> sh
    }
}

/// Whether a branch is taken; `None` where `funct3` names no branch.
fn branch_exec(a: i32, b: i32, f3: u32) -> (t: Option<bool>)
    ensures
        t == branch_taken(a, b, f3),
{
    if f3 == 0 {
        Some(a == b)
    } else if f3 == 1 {
        Some(a != b)
    } else if f3 == 4 {
        Some(a < b)
    } else if f3 == 6 {
        Some((a as u32) < (b as u32))
    } else if f3 == 5 {
        Some(a >= b)
    } else if f3 == 7 {
        Some((a as u32) >= (b as u32))
    } else {
        None
    }
}


// ---------------------------------------------------------------------------
// Fetch, traps, reset and the step.

/// The effect of fetching the instruction at `c.pc`: a misaligned `pc` traps;
/// otherwise the word the bus answers is the instruction and `pc` advances by
/// four, or the bus's fault is reported as the matching instruction fault.
pub open spec fn fetched(c: Core, n: Core, r: Result<u32, Trap>) -> bool {
    if c.pc % 4 != 0 {
        r == Err::<u32, Trap>(Trap::INSTRUCTION_ADDRESS_MISALIGNED) && n == c
    } else {
        exists|lr: Result<i32, Trap>|
            #[trigger] c.bus.load_outcome(c.pc, 2, lr) && match lr {
                Ok(v) => r == Ok::<u32, Trap>(v as u32) && regs_and_pc(
                    c,
                    n,
                    c.general_registers@,
                    u32_specs::wrapping_add(c.pc, 4),
                ),
                Err(t) => r == Err::<u32, Trap>(fetch_trap(t)) && n == c,
            }
    }
}

/// `n` is `c` after trap `t` is recorded: `mcause` holds its code and `mepc`
/// the address `epc` of the instruction that raised it.
pub open spec fn trap_recorded(c: Core, n: Core, t: Trap, epc: u32) -> bool {
    &&& n.csr@ == c.csr@.update(MCAUSE as int, trap_code(t)).update(MEPC as int, epc)
    &&& n.general_registers@ == c.general_registers@
    &&& n.pc == c.pc
    &&& n.bus == c.bus
    &&& n.entry == c.entry
}

/// `n` is `c` after a reset: interrupts disabled, `pc` at the reset vector,
/// and `mcause` the double-trap code or zero.
pub open spec fn reset_done(c: Core, n: Core, isdouble: bool) -> bool {
    &&& n.csr@ == c.csr@.update(MIE as int, 0).update(
        MCAUSE as int,
        if isdouble {
            0x10u32
        } else {
            0u32
        },
    )
    &&& n.general_registers@ == c.general_registers@
    &&& n.pc == RESET_VECTOR
    &&& n.bus == c.bus
    &&& n.entry == c.entry
}

/// What a step does after its fetch failed with `t`: the trap is recorded,
/// execution moves to the NMI vector and the instruction there is fetched (and
/// dropped); where that fetch fails too, the hart resets with a double trap.
pub open spec fn fetch_failed_then(c1: Core, n: Core, t: Trap) -> bool {
    exists|c2: Core, c3: Core, fr2: Result<u32, Trap>|
        {
            &&& c2.csr@ == c1.csr@.update(MCAUSE as int, trap_code(t)).update(MEPC as int, c1.pc)
            &&& c2.general_registers@ == c1.general_registers@
            &&& c2.pc == NMI_VECTOR
            &&& c2.bus == c1.bus
            &&& c2.entry == c1.entry
            &&& #[trigger] fetched(c2, c3, fr2)
            &&& (fr2 is Ok ==> n == c3)
            &&& (fr2 is Err ==> reset_done(c3, n, true))
        }
}

/// What a step does with instruction `i` fetched from `pc`: the all-ones
/// word is passed over; any other is executed, and a trap it raises is
/// recorded with `pc` in `mepc`.
pub open spec fn fetch_ok_then(c1: Core, n: Core, pc: u32, i: u32) -> bool {
    if i == 0xffff_ffff {
        n == c1
    } else {
        exists|c4: Core, cr: Result<(), Trap>|
            {
                &&& #[trigger] executed(c1, c1.general_registers@.update(0, 0), c4, pc, i, cr)
                &&& (cr is Ok ==> n == c4)
                &&& (cr matches Err(t) ==> trap_recorded(c4, n, t, pc))
            }
    }
}

/// One step of the hart: fetch, then execute or handle the failed fetch.
pub open spec fn stepped(c: Core, n: Core) -> bool {
    exists|c1: Core, fr: Result<u32, Trap>|
        #[trigger] fetched(c, c1, fr) && match fr {
            Err(t) => fetch_failed_then(c1, n, t),
            Ok(i) => fetch_ok_then(c1, n, c.pc, i),
        }
}

/// Whether a step completes: every access it may make completes on the bus.
pub open spec fn step_defined(c: Core) -> bool {
    &&& c.pc % 4 == 0 ==> c.bus.can_load(c.pc, 2)
    &&& c.pc % 4 != 0 ==> c.bus.can_load(NMI_VECTOR, 2)
    &&& forall|lr: Result<i32, Trap>|
        c.pc % 4 == 0 && #[trigger] c.bus.load_outcome(c.pc, 2, lr) ==> match lr {
            Ok(v) => executable(c.bus, c.general_registers@.update(0, 0), v as u32),
            Err(_) => c.bus.can_load(NMI_VECTOR, 2),
        }
}

impl Core {
    /// A hart on `bus` that starts at `entry`, its registers zero and its CSRs
    /// at their reset values.
    pub fn new(bus: Bus, entry: u32) -> (c: Core)
        requires
            bus.wf(),
        ensures
            c.wf(),
            c.general_registers@ == Seq::new(32, |i: int| 0i32),
            c.pc == entry,
            c.csr@ == initial_csr(),
            c.bus == bus,
            c.entry == entry,
    {
        let mut gr: Vec<i32> = Vec::new();
        let mut i: usize = 0;
        while i < 32
            invariant
                i <= 32,
                gr@ == Seq::new(i as nat, |j: int| 0i32),
            decreases 32 - i,
        {
            gr.push(0);
            i = i + 1;
            assert(gr@ =~= Seq::new(i as nat, |j: int| 0i32));
        }
        Core { general_registers: gr, pc: entry, csr: Core::setup_csr(), bus, entry }
    }

    fn setup_csr() -> (csrs: [u32; 4096])
        ensures
            csrs@ == initial_csr(),
    {
        broadcast use vstd::array::group_array_axioms;

        let misa: u32 = (MXL << (MXLEN - 2)) | MISAE;
        assert(misa == 0x4000_1100) by (bit_vector)
            requires misa == (1u32 << 30u32) | 0x1100u32;
        let mut csrs: [u32; 4096] = vstd::array::array_fill_for_copy_types::<u32, 4096>(0u32);
        csrs[MISA] = misa;
        assert(csrs@ =~= initial_csr());
        csrs
    }

    /// Fetches the instruction at `pc` and advances `pc` past it.
    fn fetch(&mut self) -> (r: Result<u32, Trap>)
        requires
            old(self).pc % 4 == 0 ==> old(self).bus.can_load(old(self).pc, 2),
        ensures
            fetched(*old(self), *final(self), r),
    {
        if self.pc % ((IALIGN / 8) as u32) != 0 {
            return Err(Trap::INSTRUCTION_ADDRESS_MISALIGNED);
        }
        let lr = self.bus.load(self.pc, 0b010);
        let word = match lr {
            Ok(v) => v as u32,
            Err(cause) => {
                return Err(
                    match cause {
                        Trap::LOAD_ACCESS_FAULT => Trap::INSTRUCTION_ACCESS_FAULT,
                        Trap::LOAD_ADDRESS_MISALIGNED => Trap::INSTRUCTION_ADDRESS_MISALIGNED,
                        Trap::LOAD_PAGE_FAULT => Trap::INSTRUCTION_PAGE_FAULT,
                        other => other,
                    },
                );
            },
        };
        self.pc = self.pc.wrapping_add(4);
        Ok(word)
    }
}


impl Core {
    /// Writes `v` to register `d`; a write to `x0` is dropped.
    fn write_reg(&mut self, d: usize, v: i32)
        requires
            d < old(self).general_registers@.len(),
        ensures
            final(self).general_registers@ == set_reg(old(self).general_registers@, d as int, v),
            final(self).pc == old(self).pc,
            final(self).csr@ == old(self).csr@,
            final(self).bus == old(self).bus,
            final(self).entry == old(self).entry,
    {
        if d != 0 {
            self.general_registers.set(d, v);
        }
    }

    /// Executes one instruction fetched from `pc`. `x0` reads as zero and a
    /// write to it is dropped.
    fn compute(&mut self, pc: u32, instruction: u32) -> (r: Result<(), Trap>)
        requires
            old(self).wf(),
            executable(old(self).bus, old(self).general_registers@.update(0, 0), instruction),
        ensures
            final(self).wf(),
            executed(
                *old(self),
                old(self).general_registers@.update(0, 0),
                *final(self),
                pc,
                instruction,
                r,
            ),
    {
        let i = instruction;
        proof { crate::decoder::lemma_field_bounds(i); }
        self.general_registers.set(0, 0);
        let ghost c = *old(self);
        let ghost regs = self.general_registers@;
        let op = field_of(i, 0, 6) as u32;
        let rd = field_of(i, 7, 11) as usize;
        let f3 = field_of(i, 12, 14) as u32;
        let x1 = self.general_registers[field_of(i, 15, 19) as usize];
        let x2 = self.general_registers[field_of(i, 20, 24) as usize];
        if op == OP_LUI {
            self.write_reg(rd, imm_u_of(i));
            Ok(())
        } else if op == OP_AUIPC {
            self.write_reg(rd, (pc as i32).wrapping_add(imm_u_of(i)));
            Ok(())
        } else if op == OP_JAL {
            let recons = imm_j_of(i);
            if recons % 4 != 0 {
                return Err(Trap::INSTRUCTION_ADDRESS_MISALIGNED);
            }
            self.pc = (pc as i32).wrapping_add(recons) as u32;
            self.write_reg(rd, pc.wrapping_add(4) as i32);
            Ok(())
        } else if op == OP_JALR {
            if (field_of(i, 20, 31) as u32) % 4 != 0 {
                return Err(Trap::INSTRUCTION_ADDRESS_MISALIGNED);
            }
            let target = x1.wrapping_add(imm_i_of(i)) as u32;
            self.pc = target;
            self.write_reg(rd, (pc as i32).wrapping_add(4));
            Ok(())
        } else if op == OP_BRANCH {
            let recons = imm_b_of(i);
            match branch_exec(x1, x2, f3) {
                None => Err(Trap::ILLEGAL_INSTRUCTION),
                Some(taken) => {
                    if taken {
                        self.pc = (pc as i32).wrapping_add(recons) as u32;
                    }
                    Ok(())
                },
            }
        } else if op == OP_LOAD {
            let addr = x1.wrapping_add(imm_i_of(i)) as u32;
            let lr = self.bus.load(addr, f3 as u8);
            let r = match lr {
                Err(t) => Err(t),
                Ok(v) => {
                    if f3 <= 3 {
                        if f3 == 3 {
                            Err(Trap::ILLEGAL_INSTRUCTION)
                        } else {
                            let bits: u32 = if f3 == 0 {
                                8
                            } else if f3 == 1 {
                                16
                            } else {
                                32
                            };
                            self.write_reg(rd, sextend(v, bits));
                            Ok(())
                        }
                    } else {
                        self.write_reg(rd, v);
                        Ok(())
                    }
                },
            };
            assert(load_effect(c, regs, *self, i, lr, r));
            r
        } else if op == OP_STORE {
            let addr = x1.wrapping_add(imm_s_of(i)) as u32;
            self.bus.store(addr, x2, f3 as u8)
        } else if op == OP_IMM {
            self.write_reg(rd, op_imm_exec(x1, i));
            Ok(())
        } else if op == OP_REG {
            match alu_exec(x1, x2, field_of(i, 25, 31) as u32, f3) {
                Some(v) => {
                    self.write_reg(rd, v);
                    Ok(())
                },
                None => Err(Trap::ILLEGAL_INSTRUCTION),
            }
        } else if op == OP_FENCE {
            Ok(())
        } else if op == OP_SYSTEM {
            let imm = field_of(i, 20, 31) as usize;
            if imm == 0 {
                self.csr[MEPC] = pc;
                Err(Trap::ENV_CALL_FROM_M)
            } else if imm == 1 {
                self.csr[MEPC] = pc;
                Err(Trap::BREAKPOINT)
            } else if imm == 0x302 {
                self.pc = self.csr[MEPC];
                Ok(())
            } else {
                let csrt = self.csr[imm];
                let uimm = field_of(i, 15, 19) as u32;
                if f3 == 1 {
                    self.csr[imm] = x1 as u32;
                } else if f3 == 2 {
                    self.csr[imm] = (x1 as u32) | csrt;
                } else if f3 == 3 {
                    self.csr[imm] = csrt & !(x1 as u32);
                } else if f3 == 5 {
                    self.csr[imm] = uimm;
                } else if f3 == 6 {
                    self.csr[imm] = uimm | csrt;
                } else if f3 == 7 {
                    self.csr[imm] = csrt & !uimm;
                } else {
                    return Err(Trap::ILLEGAL_INSTRUCTION);
                }
                self.write_reg(rd, csrt as i32);
                Ok(())
            }
        } else {
            Err(Trap::ILLEGAL_INSTRUCTION)
        }
    }
}


impl Core {
    /// Records a trap, if `trap` is one, in `mcause`, with `epc`, the address
    /// of the instruction that raised it, in `mepc`.
    fn trap_or<T>(&mut self, trap: Result<T, Trap>, epc: u32) -> (o: Option<T>)
        ensures
            match trap {
                Ok(v) => o == Some(v) && *final(self) == *old(self),
                Err(t) => o is None && trap_recorded(*old(self), *final(self), t, epc),
            },
    {
        match trap {
            Err(t) => {
                self.csr[MCAUSE] = t.code();
                self.csr[MEPC] = epc;
                None
            },
            Ok(v) => Some(v),
        }
    }

    /// Resets the hart after a trap while handling a trap.
    fn double_trap(&mut self)
        ensures
            reset_done(*old(self), *final(self), true),
    {
        self.reset(true);
    }

    /// Resets the hart: interrupts off, `pc` at the reset vector.
    fn reset(&mut self, isdouble: bool)
        ensures
            reset_done(*old(self), *final(self), isdouble),
    {
        self.csr[MIE] = 0;
        self.pc = RESET_VECTOR;
        self.csr[MCAUSE] = if isdouble {
            0x10
        } else {
            0x00
        };
    }

    /// Runs one instruction: fetch it, execute it and record a trap it raises
    /// (the all-ones word is passed over); where the fetch fails, record that
    /// trap and go to the NMI vector.
    pub fn step(&mut self)
        requires
            old(self).wf(),
            step_defined(*old(self)),
        ensures
            final(self).wf(),
            stepped(*old(self), *final(self)),
    {
        let ghost c = *self;
        let pc: u32 = self.pc;
        let fetchresult: Result<u32, Trap> = self.fetch();
        let ghost c1 = *self;
        let ghost fr = fetchresult;
        assert(fetched(c, c1, fr));
        let instruction: u32 = match self.trap_or(fetchresult, pc) {
            Some(instruction) => instruction,
            None => {
                let ghost t = fr->Err_0;
                proof {
                    if c.pc % 4 == 0 {
                        let lr = choose|lr: Result<i32, Trap>|
                            #[trigger] c.bus.load_outcome(c.pc, 2, lr) && match lr {
                                Ok(v) => fr == Ok::<u32, Trap>(v as u32) && regs_and_pc(
                                    c,
                                    c1,
                                    c.general_registers@,
                                    u32_specs::wrapping_add(c.pc, 4),
                                ),
                                Err(t) => fr == Err::<u32, Trap>(fetch_trap(t)) && c1 == c,
                            };
                        assert(lr is Err);
                    }
                }
                self.pc = NMI_VECTOR;
                let ghost c2 = *self;
                let again = self.fetch();
                let ghost c3 = *self;
                assert(fetched(c2, c3, again));
                if !again.is_ok() {
                    self.double_trap();
                }
                assert(fetch_failed_then(c1, *self, t));
                return;
            },
        };
        proof {
            let lr = choose|lr: Result<i32, Trap>|
                #[trigger] c.bus.load_outcome(c.pc, 2, lr) && match lr {
                    Ok(v) => fr == Ok::<u32, Trap>(v as u32) && regs_and_pc(
                        c,
                        c1,
                        c.general_registers@,
                        u32_specs::wrapping_add(c.pc, 4),
                    ),
                    Err(t) => fr == Err::<u32, Trap>(fetch_trap(t)) && c1 == c,
                };
            assert(lr is Ok);
        }
        if instruction == u32::MAX {
            return;
        }
        let compresult = self.compute(pc, instruction);
        let ghost c4 = *self;
        assert(executed(c1, c1.general_registers@.update(0, 0), c4, pc, instruction, compresult));
        self.trap_or(compresult, pc);
        assert(fetch_ok_then(c1, *self, pc, instruction));
    }
}


impl Core {
    /// Whether the next step certainly completes: every access it may make
    /// completes on the bus. Exact, but where the instruction word would come
    /// from a `Random` device, whose answers are not determined: there it is
    /// `false`.
    pub fn can_step(&self) -> (r: bool)
        requires
            self.wf(),
        ensures
            r ==> step_defined(*self),
            !(self.pc % 4 == 0 && self.bus.random_at(self.pc)) ==> (r == step_defined(*self)),
            self.pc % 4 == 0 && self.bus.random_at(self.pc) ==> !r,
    {
        if self.pc % 4 != 0 {
            return self.bus.load_completes(NMI_VECTOR, 2);
        }
        if !self.bus.load_completes(self.pc, 2) || !self.bus.answers_determined(self.pc, 2) {
            return false;
        }
        let lr = self.bus.load(self.pc, 2);
        let i: u32 = match lr {
            Err(_) => {
                return self.bus.load_completes(NMI_VECTOR, 2);
            },
            Ok(v) => v as u32,
        };
        let ghost regs = self.general_registers@.update(0, 0);
        let op = field_of(i, 0, 6) as u32;
        let r1 = field_of(i, 15, 19) as usize;
        let f3 = field_of(i, 12, 14) as u8;
        proof {
            lemma_field_bounds(i);
        }
        let x1: i32 = if r1 == 0 {
            0
        } else {
            self.general_registers[r1]
        };
        assert(x1 == regs[rs1(i)]);
        if op == OP_LOAD {
            let addr = x1.wrapping_add(imm_i_of(i)) as u32;
            self.bus.load_completes(addr, f3)
        } else if op == OP_STORE {
            let addr = x1.wrapping_add(imm_s_of(i)) as u32;
            self.bus.store_completes(addr, f3)
        } else {
            true
        }
    }
}

} // verus!
