use riscy::assembler::assemble;
use riscy::devices::{Bus, Device, DeviceOption};
use riscy::machine::{Core, MCAUSE, MEPC, MISA, NMI_VECTOR};
use riscy::memory::{StandardAccess, StdMemory};
use riscy::risclib::Trap;

fn program(src: &[&str]) -> Vec<u8> {
    let mut lines: Vec<String> = vec![".section .text".to_string()];
    lines.extend(src.iter().map(|l| l.to_string()));
    assemble(lines).unwrap().0
}

fn core_with(code: &[u8], entry: u32) -> Core {
    let mut mem = StdMemory::new();
    for (i, b) in code.iter().enumerate() {
        mem.store_byte(i as u32, *b as i32).unwrap();
    }
    let bus = Bus::new(vec![Device::new(0, 0xb8000, DeviceOption::StdMem(mem))]);
    Core::new(bus, entry)
}

fn run(src: &[&str], steps: usize) -> Core {
    let mut cpu = core_with(&program(src), 0);
    for _ in 0..steps {
        cpu.step();
    }
    cpu
}

#[test]
fn new_core_is_reset() {
    let cpu = core_with(&[], 0x40);
    assert_eq!(cpu.pc, 0x40);
    assert_eq!(cpu.entry, 0x40);
    assert!(cpu.general_registers.iter().all(|r| *r == 0));
    assert_eq!(cpu.general_registers.len(), 32);
    assert_eq!(cpu.csr[MISA], 0x4000_1100);
    assert_eq!(cpu.csr[MCAUSE], 0);
}

#[test]
fn addi_writes_and_pc_advances() {
    let cpu = run(&["addi x1, x0, 5"], 1);
    assert_eq!(cpu.general_registers[1], 5);
    assert_eq!(cpu.pc, 4);
}

#[test]
fn x0_reads_as_zero() {
    let cpu = run(&["addi x0, x0, 7", "addi x1, x0, 0"], 2);
    assert_eq!(cpu.general_registers[1], 0);
}

#[test]
fn lui_puts_the_immediate_in_place() {
    let cpu = run(&["lui x1, 0x12345"], 1);
    assert_eq!(cpu.general_registers[1], 0x1234_5000);
}

#[test]
fn auipc_adds_to_pc() {
    let cpu = run(&["addi x0, x0, 0", "auipc x2, 1"], 2);
    assert_eq!(cpu.general_registers[2], 4 + 0x1000);
}

#[test]
fn li_loads_its_number() {
    let cpu = run(&["li t0, 0x12345", "li t1, 100"], 3);
    assert_eq!(cpu.general_registers[5], 0x12345);
    assert_eq!(cpu.general_registers[6], 100);
}

#[test]
fn li_loads_every_number() {
    for n in ["0x1800", "0x800", "0", "0xffffffff", "0x7fffffff", "0x80000000", "0xfffff800", "123456789"] {
        let cpu = run(&[&format!("li t0, {}", n)], 2);
        let expected = riscy::text::int_from_any_exec(&n.chars().collect()).unwrap();
        assert_eq!(cpu.general_registers[5], expected, "li t0, {}", n);
    }
}

#[test]
fn writes_to_x0_are_dropped() {
    let cpu = run(&["lui x0, 1"], 1);
    assert_eq!(cpu.general_registers[0], 0);
}

#[test]
fn jal_reaches_half_a_mebibyte_forward() {
    let cpu = run(&["jal x0, 524288"], 1);
    assert_eq!(cpu.pc, 0x80000);
}

#[test]
fn jalr_checks_its_immediate() {
    // An immediate that is not a multiple of four traps, whatever the target.
    let cpu = run(&["addi x1, x0, 6", "jalr x2, x1, -2"], 2);
    assert_eq!(cpu.csr[MCAUSE], Trap::INSTRUCTION_ADDRESS_MISALIGNED.code());
    assert_eq!(cpu.csr[MEPC], 4);
    assert_eq!(cpu.general_registers[2], 0);
    // An aligned immediate jumps to `rs1 + imm`; a misaligned target traps
    // when the next instruction is fetched from it.
    let cpu = run(&["addi x1, x0, 2", "jalr x2, x1, 0"], 2);
    assert_eq!(cpu.pc, 2);
    assert_eq!(cpu.general_registers[2], 8);
    assert_eq!(cpu.csr[MCAUSE], 0);
    let cpu = run(&["addi x1, x0, 2", "jalr x2, x1, 0"], 3);
    assert_eq!(cpu.csr[MCAUSE], Trap::INSTRUCTION_ADDRESS_MISALIGNED.code());
    assert_eq!(cpu.csr[MEPC], 2);
}

#[test]
fn division_by_zero_follows_the_m_extension() {
    let cpu = run(&["addi x2, x0, 7", "div x3, x2, x0", "rem x4, x2, x0", "divu x5, x2, x0"], 4);
    assert_eq!(cpu.general_registers[3], -1);
    assert_eq!(cpu.general_registers[4], 7);
    assert_eq!(cpu.general_registers[5], -1);
}

#[test]
fn signed_division_and_remainder_truncate() {
    let cpu = run(&["addi x1, x0, -7", "addi x2, x0, 2", "div x3, x1, x2", "rem x4, x1, x2"], 4);
    assert_eq!(cpu.general_registers[3], -3);
    assert_eq!(cpu.general_registers[4], -1);
}

#[test]
fn multiplication_high_parts() {
    let cpu = run(&["addi x1, x0, -1", "addi x2, x0, 2", "mulhu x3, x1, x2", "mulh x4, x1, x2", "mul x5, x1, x2"], 5);
    assert_eq!(cpu.general_registers[3], 1);
    assert_eq!(cpu.general_registers[4], -1);
    assert_eq!(cpu.general_registers[5], -2);
}

#[test]
fn shifts_and_comparisons() {
    let cpu = run(
        &["addi x1, x0, -8", "srai x2, x1, 1", "srli x3, x1, 28", "slli x4, x1, 2", "slti x5, x1, 0", "sltiu x6, x1, 1"],
        6,
    );
    assert_eq!(cpu.general_registers[2], -4);
    assert_eq!(cpu.general_registers[3], 0xf);
    assert_eq!(cpu.general_registers[4], -32);
    assert_eq!(cpu.general_registers[5], 1);
    assert_eq!(cpu.general_registers[6], 0);
}

#[test]
fn store_then_load_round_trip() {
    let cpu = run(
        &["addi x1, x0, 256", "addi x2, x0, -5", "sw x2, x1, 0", "lw x3, x1, 0", "lb x4, x1, 0", "lbu x5, x1, 0", "lh x6, x1, 0", "lhu x7, x1, 0"],
        8,
    );
    assert_eq!(cpu.general_registers[3], -5);
    assert_eq!(cpu.general_registers[4], -5);
    assert_eq!(cpu.general_registers[5], 0xfb);
    assert_eq!(cpu.general_registers[6], -5);
    assert_eq!(cpu.general_registers[7], 0xfffb);
}

#[test]
fn taken_branch_skips() {
    let cpu = run(&["addi x1, x0, 1", "addi x2, x0, 1", "beq x1, x2, 8", "addi x3, x0, 9", "addi x4, x0, 4"], 4);
    assert_eq!(cpu.general_registers[3], 0);
    assert_eq!(cpu.general_registers[4], 4);
    assert_eq!(cpu.pc, 20);
}

#[test]
fn untaken_branch_falls_through() {
    let cpu = run(&["addi x1, x0, 1", "bne x1, x1, 8", "addi x3, x0, 9"], 3);
    assert_eq!(cpu.general_registers[3], 9);
}

#[test]
fn jal_links_and_jumps() {
    let cpu = run(&["jal ra, 8"], 1);
    assert_eq!(cpu.general_registers[1], 4);
    assert_eq!(cpu.pc, 8);
}

#[test]
fn jalr_returns() {
    let cpu = run(&["addi x1, x0, 12", "jalr x2, x1, 0"], 2);
    assert_eq!(cpu.general_registers[2], 8);
    assert_eq!(cpu.pc, 12);
}

#[test]
fn ecall_records_a_trap() {
    let cpu = run(&["addi x0, x0, 0", "ecall"], 2);
    assert_eq!(cpu.csr[MCAUSE], Trap::ENV_CALL_FROM_M.code());
    assert_eq!(cpu.csr[MEPC], 4);
}

#[test]
fn illegal_instruction_is_recorded() {
    // funct7 0x7f names no OP instruction.
    let mut code = Vec::new();
    code.extend_from_slice(&(0xFE00_00B3u32).to_le_bytes());
    let mut cpu = core_with(&code, 0);
    cpu.step();
    assert_eq!(cpu.csr[MCAUSE], Trap::ILLEGAL_INSTRUCTION.code());
}

#[test]
fn misaligned_pc_goes_to_the_nmi_vector() {
    let mut cpu = core_with(&[], 2);
    cpu.step();
    assert_eq!(cpu.csr[MCAUSE], Trap::INSTRUCTION_ADDRESS_MISALIGNED.code());
    assert_eq!(cpu.csr[MEPC], 2);
    assert_eq!(cpu.pc, NMI_VECTOR + 4);
}

#[test]
fn fetch_from_nowhere_resets_with_a_double_trap() {
    let bus = Bus::new(vec![]);
    let mut cpu = Core::new(bus, 0x100);
    cpu.step();
    assert_eq!(cpu.pc, 0);
    assert_eq!(cpu.csr[MCAUSE], 0x10);
}

#[test]
fn all_ones_word_is_passed_over() {
    let code = vec![0xff, 0xff, 0xff, 0xff];
    let mut cpu = core_with(&code, 0);
    cpu.step();
    assert_eq!(cpu.pc, 4);
    assert_eq!(cpu.csr[MCAUSE], 0);
    assert_eq!(cpu.csr[MEPC], 0);
    assert!(cpu.general_registers.iter().all(|r| *r == 0));
}

#[test]
fn store_to_unmapped_address_faults() {
    let cpu = run(&["lui x1, 0x100", "sw x1, x1, 0"], 2);
    assert_eq!(cpu.csr[MCAUSE], Trap::STORE_ACCESS_FAULT.code());
}

fn raw(words: &[u32]) -> Vec<u8> {
    words.iter().flat_map(|w| w.to_le_bytes()).collect()
}

#[test]
fn ebreak_word_records_a_breakpoint() {
    let mut cpu = core_with(&raw(&[0x0010_0073]), 0);
    cpu.step();
    assert_eq!(cpu.csr[MCAUSE], Trap::BREAKPOINT.code());
}

#[test]
fn assembled_ebreak_records_a_breakpoint() {
    let mut cpu = core_with(&program(&["ebreak"]), 0);
    cpu.step();
    assert_eq!(cpu.csr[MCAUSE], Trap::BREAKPOINT.code());
}

#[test]
fn csr_instructions_swap_and_set() {
    // addi x2, x0, 5; csrrw x1, 0x340, x2; csrrs x3, 0x340, x0
    let mut cpu = core_with(&raw(&[0x0050_0113, 0x3401_10F3, 0x3400_21F3]), 0);
    cpu.step();
    cpu.step();
    cpu.step();
    assert_eq!(cpu.general_registers[1], 0);
    assert_eq!(cpu.general_registers[3], 5);
    assert_eq!(cpu.csr[0x340], 5);
}

#[test]
fn mret_jumps_to_mepc() {
    // The ecall at 0 leaves its address in mepc; the mret at 4 returns there.
    let mut cpu = core_with(&raw(&[0x0000_0073, 0x3020_0073]), 0);
    cpu.step();
    assert_eq!(cpu.pc, 4);
    assert_eq!(cpu.csr[MEPC], 0);
    cpu.step();
    assert_eq!(cpu.pc, 0);
}

#[test]
fn can_step_checks_the_next_access() {
    let cpu = run(&["addi x1, x0, 1"], 0);
    assert!(cpu.can_step());
    let mut far = core_with(&raw(&[0x0000_2083]), 0);
    // lw x1, x0, 0 reads address 0 of the memory: it completes.
    assert!(far.can_step());
    far.step();
    assert_eq!(far.general_registers[1], 0x2083);
}
