use vstd::prelude::*;

pub mod file_processor;

verus! {

/// The exceptions an RV32 hart can raise, in the order of their `mcause` codes.
#[allow(non_camel_case_types)]
#[derive(Clone, Copy, Debug, PartialEq, Eq, Structural)]
pub enum Trap {
    INSTRUCTION_ADDRESS_MISALIGNED,
    INSTRUCTION_ACCESS_FAULT,
    ILLEGAL_INSTRUCTION,
    BREAKPOINT,
    LOAD_ADDRESS_MISALIGNED,
    LOAD_ACCESS_FAULT,
    STORE_ADDRESS_MISALIGNED,
    STORE_ACCESS_FAULT,
    ENV_CALL_FROM_U,
    ENV_CALL_FROM_S,
    ENV_CALL_FROM_M,
    INSTRUCTION_PAGE_FAULT,
    LOAD_PAGE_FAULT,
    STORE_PAGE_FAULT,
    DOUBLE_TRAP,
    SOFTWARE_CHECK,
    HARDWARE_ERROR,
    DEVICE_FAULT,
    INVALID_DEVICE_REGION,
}

/// The `mcause` exception code of each trap (the two private causes use the
/// implementation-defined range 0x18..0x1f).
pub open spec fn trap_code(t: Trap) -> u32 {
    match t {
        Trap::INSTRUCTION_ADDRESS_MISALIGNED => 0x00,
        Trap::INSTRUCTION_ACCESS_FAULT => 0x01,
        Trap::ILLEGAL_INSTRUCTION => 0x02,
        Trap::BREAKPOINT => 0x03,
        Trap::LOAD_ADDRESS_MISALIGNED => 0x04,
        Trap::LOAD_ACCESS_FAULT => 0x05,
        Trap::STORE_ADDRESS_MISALIGNED => 0x06,
        Trap::STORE_ACCESS_FAULT => 0x07,
        Trap::ENV_CALL_FROM_U => 0x08,
        Trap::ENV_CALL_FROM_S => 0x09,
        Trap::ENV_CALL_FROM_M => 0x0b,
        Trap::INSTRUCTION_PAGE_FAULT => 0x0c,
        Trap::LOAD_PAGE_FAULT => 0x0d,
        Trap::STORE_PAGE_FAULT => 0x0f,
        Trap::DOUBLE_TRAP => 0x10,
        Trap::SOFTWARE_CHECK => 0x12,
        Trap::HARDWARE_ERROR => 0x13,
        Trap::DEVICE_FAULT => 0x18,
        Trap::INVALID_DEVICE_REGION => 0x19,
    }
}

/// The human-readable name of each trap.
pub open spec fn trap_name(t: Trap) -> Seq<char> {
    match t {
        Trap::INSTRUCTION_ADDRESS_MISALIGNED => "INSTRUCTION_ADDRESS_MISALIGNED"@,
        Trap::INSTRUCTION_ACCESS_FAULT => "INSTRUCTION_ADDRESS_FAULT"@,
        Trap::ILLEGAL_INSTRUCTION => "ILLEGAL_INSTRUCTION"@,
        Trap::BREAKPOINT => "BREAKPOINT"@,
        Trap::LOAD_ADDRESS_MISALIGNED => "LOAD_ADDRESS_MISALIGNED"@,
        Trap::LOAD_ACCESS_FAULT => "LOAD_ACCESS_FAULT"@,
        Trap::STORE_ADDRESS_MISALIGNED => "STORE_ACCESS_MISALIGNED"@,
        Trap::STORE_ACCESS_FAULT => "STORE_ACCESS_FAULT"@,
        Trap::ENV_CALL_FROM_U => "ENVIRONMENT CALL (USER)"@,
        Trap::ENV_CALL_FROM_S => "ENVIRONMENT CALL (SUPERVISOR)"@,
        Trap::ENV_CALL_FROM_M => "ENVIRONMENT CALL (MACHINE)"@,
        Trap::INSTRUCTION_PAGE_FAULT => "INSTRUCTION_PAGE_FAULT"@,
        Trap::LOAD_PAGE_FAULT => "LOAD_PAGE_FAULT"@,
        Trap::STORE_PAGE_FAULT => "STORE_PAGE_FAULT"@,
        Trap::DOUBLE_TRAP => "DOUBLE_TRAP"@,
        Trap::SOFTWARE_CHECK => "SOFTWARE_CHECK"@,
        Trap::HARDWARE_ERROR => "HARDWARE_ERROR"@,
        Trap::DEVICE_FAULT => "private DEVICE_FAULT"@,
        Trap::INVALID_DEVICE_REGION => "private INVALID_DEVICE_REGION"@,
    }
}

/// Different traps are reported under different names: no two traps share
/// a name (each differs from every other in length or in its first
/// character).
pub proof fn lemma_trap_names_distinct(t1: Trap, t2: Trap)
    requires
        t1 != t2,
    ensures
        trap_name(t1) != trap_name(t2),
{
    reveal_strlit("INSTRUCTION_ADDRESS_MISALIGNED");
    reveal_strlit("INSTRUCTION_ADDRESS_FAULT");
    reveal_strlit("ILLEGAL_INSTRUCTION");
    reveal_strlit("BREAKPOINT");
    reveal_strlit("LOAD_ADDRESS_MISALIGNED");
    reveal_strlit("LOAD_ACCESS_FAULT");
    reveal_strlit("STORE_ACCESS_MISALIGNED");
    reveal_strlit("STORE_ACCESS_FAULT");
    reveal_strlit("ENVIRONMENT CALL (USER)");
    reveal_strlit("ENVIRONMENT CALL (SUPERVISOR)");
    reveal_strlit("ENVIRONMENT CALL (MACHINE)");
    reveal_strlit("INSTRUCTION_PAGE_FAULT");
    reveal_strlit("LOAD_PAGE_FAULT");
    reveal_strlit("STORE_PAGE_FAULT");
    reveal_strlit("DOUBLE_TRAP");
    reveal_strlit("SOFTWARE_CHECK");
    reveal_strlit("HARDWARE_ERROR");
    reveal_strlit("private DEVICE_FAULT");
    reveal_strlit("private INVALID_DEVICE_REGION");
    assert(trap_name(t1).len() != trap_name(t2).len() || trap_name(t1)[0] != trap_name(t2)[0]);
}

impl Trap {
    /// The name under which the trap is reported.
    pub fn expose_err(&self) -> (s: &'static str)
        ensures
            s@ == trap_name(*self),
    {
        match self {
            Trap::INSTRUCTION_ADDRESS_MISALIGNED => "INSTRUCTION_ADDRESS_MISALIGNED",
            Trap::INSTRUCTION_ACCESS_FAULT => "INSTRUCTION_ADDRESS_FAULT",
            Trap::ILLEGAL_INSTRUCTION => "ILLEGAL_INSTRUCTION",
            Trap::BREAKPOINT => "BREAKPOINT",
            Trap::LOAD_ADDRESS_MISALIGNED => "LOAD_ADDRESS_MISALIGNED",
            Trap::LOAD_ACCESS_FAULT => "LOAD_ACCESS_FAULT",
            Trap::STORE_ADDRESS_MISALIGNED => "STORE_ACCESS_MISALIGNED",
            Trap::STORE_ACCESS_FAULT => "STORE_ACCESS_FAULT",
            Trap::ENV_CALL_FROM_U => "ENVIRONMENT CALL (USER)",
            Trap::ENV_CALL_FROM_S => "ENVIRONMENT CALL (SUPERVISOR)",
            Trap::ENV_CALL_FROM_M => "ENVIRONMENT CALL (MACHINE)",
            Trap::INSTRUCTION_PAGE_FAULT => "INSTRUCTION_PAGE_FAULT",
            Trap::LOAD_PAGE_FAULT => "LOAD_PAGE_FAULT",
            Trap::STORE_PAGE_FAULT => "STORE_PAGE_FAULT",
            Trap::DOUBLE_TRAP => "DOUBLE_TRAP",
            Trap::SOFTWARE_CHECK => "SOFTWARE_CHECK",
            Trap::HARDWARE_ERROR => "HARDWARE_ERROR",
            Trap::DEVICE_FAULT => "private DEVICE_FAULT",
            Trap::INVALID_DEVICE_REGION => "private INVALID_DEVICE_REGION",
        }
    }

    /// The `mcause` exception code of the trap.
    pub fn code(&self) -> (c: u32)
        ensures
            c == trap_code(*self),
    {
        match self {
            Trap::INSTRUCTION_ADDRESS_MISALIGNED => 0x00,
            Trap::INSTRUCTION_ACCESS_FAULT => 0x01,
            Trap::ILLEGAL_INSTRUCTION => 0x02,
            Trap::BREAKPOINT => 0x03,
            Trap::LOAD_ADDRESS_MISALIGNED => 0x04,
            Trap::LOAD_ACCESS_FAULT => 0x05,
            Trap::STORE_ADDRESS_MISALIGNED => 0x06,
            Trap::STORE_ACCESS_FAULT => 0x07,
            Trap::ENV_CALL_FROM_U => 0x08,
            Trap::ENV_CALL_FROM_S => 0x09,
            Trap::ENV_CALL_FROM_M => 0x0b,
            Trap::INSTRUCTION_PAGE_FAULT => 0x0c,
            Trap::LOAD_PAGE_FAULT => 0x0d,
            Trap::STORE_PAGE_FAULT => 0x0f,
            Trap::DOUBLE_TRAP => 0x10,
            Trap::SOFTWARE_CHECK => 0x12,
            Trap::HARDWARE_ERROR => 0x13,
            Trap::DEVICE_FAULT => 0x18,
            Trap::INVALID_DEVICE_REGION => 0x19,
        }
    }
}

/// Sign extension of the low `bits` bits of `from`, two's complement.
pub open spec fn spec_sextend(from: i32, bits: u32) -> i32 {
    (((from as u32) << ((32 - bits) as u32)) as i32) >> ((32 - bits) as u32)
}

/// Sign-extends the low `bits` bits of `from` to a full 32-bit value.
pub fn sextend(from: i32, bits: u32) -> (r: i32)
    requires
        1 <= bits <= 32,
    ensures
        r == spec_sextend(from, bits),
{
    (((from as u32) << (32 - bits)) as i32) >> (32 - bits)
}

} // verus!
