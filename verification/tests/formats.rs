use riscy::assembler::assemble;
use riscy::decoder::fetch;
use riscy::elf::{load, ElfErr};
use riscy::memory::{StandardAccess, StdMemory};
use riscy::random::rri;
use riscy::risclib::file_processor::{is_parsable, newfile, parsebin};
use riscy::risclib::{sextend, Trap};
use riscy::riscutils::colours::{BLACK, BLUE, LCYAN, WHITE};
use riscy::riscutils::{draw_char, print, TEXT_BUFFER};
use riscy::text::{
    chars_of, decimal_chars, int_from_any_exec, join_chars, parse_int_exec, split_chars, tokenise_line,
    trim_chars, IntErrorKind,
};

fn cs(s: &str) -> Vec<char> {
    s.chars().collect()
}

#[test]
fn object_file_round_trip() {
    let data = vec![1u8, 2, 3];
    let text = vec![9u8, 8, 7, 6];
    let obj = newfile(data.clone(), text.clone());
    assert_eq!(&obj[0..5], b"RV32I");
    let (d, t) = parsebin(&obj);
    assert_eq!(d, &data[..]);
    assert_eq!(t, &text[..]);
}

#[test]
fn object_file_layout() {
    let obj = newfile(vec![0xaa], vec![0xbb]);
    // data from 0x20 to 0x21, text aligned to the next multiple of 32.
    assert_eq!(obj[5..13], [0x20, 0x00, 0x21, 0x00, 0x40, 0x00, 0x00, 0x00]);
    assert_eq!(obj[0x20], 0xaa);
    assert_eq!(obj.len(), 0x41);
    assert_eq!(obj[0x40], 0xbb);
}

fn elf_image() -> Vec<u8> {
    let mut obj = vec![0u8; 0x58];
    obj[0..4].copy_from_slice(&[0x7f, b'E', b'L', b'F']);
    obj[0x10..0x12].copy_from_slice(&2u16.to_le_bytes());
    obj[0x12..0x14].copy_from_slice(&0xf3u16.to_le_bytes());
    obj[0x18..0x1c].copy_from_slice(&0x1000u32.to_le_bytes());
    obj[0x1c..0x20].copy_from_slice(&0x34u32.to_le_bytes());
    obj[0x2a..0x2c].copy_from_slice(&0x20u16.to_le_bytes());
    obj[0x2c..0x2e].copy_from_slice(&1u16.to_le_bytes());
    let ph = 0x34;
    obj[ph..ph + 4].copy_from_slice(&1u32.to_le_bytes());
    obj[ph + 4..ph + 8].copy_from_slice(&0x54u32.to_le_bytes());
    obj[ph + 8..ph + 12].copy_from_slice(&0x1000u32.to_le_bytes());
    obj[ph + 16..ph + 20].copy_from_slice(&4u32.to_le_bytes());
    obj[ph + 20..ph + 24].copy_from_slice(&4u32.to_le_bytes());
    obj[0x54..0x58].copy_from_slice(&[0x93, 0x00, 0x50, 0x00]);
    obj
}

#[test]
fn elf_segments_are_loaded() {
    let mut mem = StdMemory::new();
    assert_eq!(load(&elf_image(), &mut mem), Ok(0x1000));
    assert_eq!(mem.load_word(0x1000), Ok(0x0050_0093));
}

#[test]
fn elf_refusals() {
    let mut mem = StdMemory::new();
    let mut bad = elf_image();
    bad[0] = 0;
    assert_eq!(load(&bad, &mut mem), Err(ElfErr::NoMagic));
    let mut bad = elf_image();
    bad[2] = b'X';
    assert_eq!(load(&bad, &mut mem), Err(ElfErr::NoELF));
    let mut bad = elf_image();
    bad[0x10] = 3;
    assert_eq!(load(&bad, &mut mem), Err(ElfErr::NotExecutable));
    let mut bad = elf_image();
    bad[0x12] = 0x3e;
    assert_eq!(load(&bad, &mut mem), Err(ElfErr::InvalidArch));
    assert_eq!(mem.load_word(0x1000), Ok(0));
    assert!(ElfErr::expose(&ElfErr::NoMagic).starts_with("No magic number"));
    assert!(ElfErr::expose(&ElfErr::InvalidArch).contains("0xf3"));
}

#[test]
fn text_cells() {
    // 'H' at column 10 of line 0 in light cyan.
    assert_eq!(draw_char((10, 0), 'H', (LCYAN, BLACK)), (0xb8014, 0x0b48));
    assert_eq!(draw_char((0, 1), 'A', (WHITE, BLUE)), (TEXT_BUFFER + 160, 0x1f41));
}

#[test]
fn print_wraps_at_the_end_of_a_line() {
    let ws = print("Hi!", 2, 79, (WHITE, BLACK));
    assert_eq!(ws, vec![(TEXT_BUFFER + 2 * (80 * 2 + 79), 0x0f48), (TEXT_BUFFER + 2 * (80 * 3), 0x0f69), (TEXT_BUFFER + 2 * (80 * 3 + 1), 0x0f21)]);
    assert!(print("", 0, 0, (WHITE, BLACK)).is_empty());
}

#[test]
fn trap_names_and_codes() {
    assert_eq!(Trap::ILLEGAL_INSTRUCTION.expose_err(), "ILLEGAL_INSTRUCTION");
    assert_eq!(Trap::ENV_CALL_FROM_M.expose_err(), "ENVIRONMENT CALL (MACHINE)");
    assert_eq!(Trap::ENV_CALL_FROM_M.code(), 0x0b);
    assert_eq!(Trap::DOUBLE_TRAP.code(), 0x10);
    assert_eq!(Trap::STORE_PAGE_FAULT.code(), 0x0f);
}

#[test]
fn every_trap_has_its_own_name() {
    let all = [
        Trap::INSTRUCTION_ADDRESS_MISALIGNED,
        Trap::INSTRUCTION_ACCESS_FAULT,
        Trap::ILLEGAL_INSTRUCTION,
        Trap::BREAKPOINT,
        Trap::LOAD_ADDRESS_MISALIGNED,
        Trap::LOAD_ACCESS_FAULT,
        Trap::STORE_ADDRESS_MISALIGNED,
        Trap::STORE_ACCESS_FAULT,
        Trap::ENV_CALL_FROM_U,
        Trap::ENV_CALL_FROM_S,
        Trap::ENV_CALL_FROM_M,
        Trap::INSTRUCTION_PAGE_FAULT,
        Trap::LOAD_PAGE_FAULT,
        Trap::STORE_PAGE_FAULT,
        Trap::DOUBLE_TRAP,
        Trap::SOFTWARE_CHECK,
        Trap::HARDWARE_ERROR,
        Trap::DEVICE_FAULT,
        Trap::INVALID_DEVICE_REGION,
    ];
    assert_eq!(Trap::LOAD_ACCESS_FAULT.expose_err(), "LOAD_ACCESS_FAULT");
    for (i, a) in all.iter().enumerate() {
        for (j, b) in all.iter().enumerate() {
            assert_eq!(i == j, a.expose_err() == b.expose_err(), "{:?} {:?}", a, b);
        }
    }
}

#[test]
fn tokens_join_back_to_the_line() {
    let toks = tokenise_line(&cs("addi x5 x0 5 "));
    assert_eq!(toks, vec![cs("addi"), cs("x5"), cs("x0"), cs("5")]);
    assert_eq!(join_chars(&toks, ' '), cs("addi x5 x0 5"));
    let toks = tokenise_line(&cs("a  b"));
    assert_eq!(toks, vec![cs("a"), cs(""), cs("b")]);
    assert_eq!(join_chars(&toks, ' '), cs("a  b"));
}

#[test]
fn sign_extension() {
    assert_eq!(sextend(0xff, 8), -1);
    assert_eq!(sextend(0x7f, 8), 127);
    assert_eq!(sextend(0x800, 12), -2048);
    assert_eq!(sextend(-1, 32), -1);
}

#[test]
fn instruction_fields() {
    let (code, _) = assemble(vec![".section .text".to_string(), "addi x5, x6, -3".to_string()]).unwrap();
    let w = u32::from_le_bytes([code[0], code[1], code[2], code[3]]);
    assert_eq!(fetch(w, 0, 6), 0x13);
    assert_eq!(fetch(w, 7, 11), 5);
    assert_eq!(fetch(w, 12, 14), 0);
    assert_eq!(fetch(w, 15, 19), 6);
    assert_eq!(sextend(fetch(w, 20, 31), 12), -3);
}

#[test]
fn random_range() {
    assert_eq!(rri(3, 3), 3);
    for _ in 0..100 {
        let v = rri(-5, 5);
        assert!((-5..=5).contains(&v));
    }
}

#[test]
fn text_helpers() {
    assert_eq!(chars_of("abc"), cs("abc"));
    assert_eq!(trim_chars(&cs("  a b \t")), cs("a b"));
    assert_eq!(split_chars(&cs("a#b##"), '#'), vec![cs("a"), cs("b"), cs(""), cs("")]);
    assert_eq!(join_chars(&vec![cs("x"), cs(""), cs("y")], ' '), cs("x  y"));
    assert_eq!(tokenise_line(&cs("li a0 \"x y\" z")), vec![cs("li"), cs("a0"), cs("xy"), cs("z")]);
    assert_eq!(tokenise_line(&cs("a  b ")), vec![cs("a"), cs(""), cs("b")]);
    assert_eq!(decimal_chars(-120), cs("-120"));
    assert_eq!(decimal_chars(0), cs("0"));
}

#[test]
fn number_parsing() {
    assert_eq!(parse_int_exec(&cs("+42"), 10, false, 0, 0xffff_ffff), Ok(42));
    assert_eq!(parse_int_exec(&cs("-42"), 10, true, -0x8000_0000, 0x7fff_ffff), Ok(-42));
    assert_eq!(parse_int_exec(&cs("-42"), 10, false, 0, 0xffff_ffff), Err(IntErrorKind::InvalidDigit));
    assert_eq!(parse_int_exec(&cs(""), 10, false, 0, 0xffff_ffff), Err(IntErrorKind::Empty));
    assert_eq!(parse_int_exec(&cs("4294967296"), 10, false, 0, 0xffff_ffff), Err(IntErrorKind::PosOverflow));
    assert_eq!(parse_int_exec(&cs("-2147483649"), 10, true, -0x8000_0000, 0x7fff_ffff), Err(IntErrorKind::NegOverflow));
    assert_eq!(int_from_any_exec(&cs("0x10")), Some(16));
    assert_eq!(int_from_any_exec(&cs("0b101")), Some(5));
    assert_eq!(int_from_any_exec(&cs("0o17")), Some(15));
    assert_eq!(int_from_any_exec(&cs("7")), Some(7));
    assert_eq!(int_from_any_exec(&cs("0xffffffff")), Some(-1));
    assert_eq!(int_from_any_exec(&cs("abc")), None);
    assert_eq!(int_from_any_exec(&cs("")), None);
}

#[test]
fn decimal_reads_back() {
    for n in [0i64, 7, 10, 99, 2048, 65535, 2147483647] {
        assert_eq!(int_from_any_exec(&decimal_chars(n)), Some(n as i32));
    }
    for n in [-1i64, -2048, -2147483648] {
        assert_eq!(parse_int_exec(&decimal_chars(n), 10, true, -0x8000_0000, 0x7fff_ffff), Ok(n));
    }
}

#[test]
fn object_file_check() {
    let obj = newfile(vec![1, 2], vec![3]);
    assert!(is_parsable(&obj));
    let mut bad = obj.clone();
    bad[0] = b'X';
    assert!(!is_parsable(&bad));
    let mut short_regions = obj.clone();
    short_regions[7] = 0xff;
    assert!(!is_parsable(&short_regions));
    assert!(!is_parsable(&obj[..12]));
}

#[test]
fn elf_check() {
    assert!(riscy::elf::is_loadable(&elf_image()));
    assert!(!riscy::elf::is_loadable(&elf_image()[..0x40]));
    let mut far = elf_image();
    far[0x38] = 0xf0; // segment offset past the end
    assert!(!riscy::elf::is_loadable(&far));
    // A refused header reads nothing more.
    let mut bad = elf_image();
    bad[0] = 0;
    assert!(riscy::elf::is_loadable(&bad[..0x2e]));
}
