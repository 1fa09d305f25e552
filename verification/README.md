# riscy

An emulator for the `rv32im` RISC-V ISA, with the assembler and the tools
around it, written in Verus: each function states its behaviour in
`requires`/`ensures` and Verus proves it.

## Layout

- `src/machine.rs` — the hart: fetch, decode and execute one instruction
  per step, traps recorded in `mcause`/`mepc`.
- `src/devices.rs` — the bus and its devices, and the text-mode display.
- `src/memory.rs` — paged, flat and random memories behind one access trait.
- `src/assembler.rs` and `src/assembler/` — the assembler: directives, the
  data section, labels, `li`, and instruction encoding.
- `src/elf.rs` — loading an ELF image into memory.
- `src/risclib.rs`, `src/risclib/file_processor.rs` — traps and the simple
  object file format.
- `src/riscutils.rs` — drawing text into the display's memory.
- `src/text.rs` — the string handling the assembler needs.
- `src/random.rs` — random numbers, through the `rand` crate.
- `app/main.rs` — the emulator program: reads an ELF file and shows the
  display in a `minifb` window.
- `tests/` — scenarios run against the compiled library.
