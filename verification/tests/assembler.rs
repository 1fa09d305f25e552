use riscy::assembler::{assemble, assemble_checked, build};
use riscy::risclib::file_processor::{newfile, parsebin};
use riscy::text::IntErrorKind;

fn lines(src: &[&str]) -> Vec<String> {
    src.iter().map(|l| l.to_string()).collect()
}

fn words(code: &[u8]) -> Vec<u32> {
    code.chunks(4).map(|c| u32::from_le_bytes([c[0], c[1], c[2], c[3]])).collect()
}

#[test]
fn assembles_addi() {
    let (code, data) = assemble(lines(&[".section .text", "addi x1, x0, 5"])).unwrap();
    assert_eq!(code, vec![0x93, 0x00, 0x50, 0x00]);
    assert!(data.is_empty());
}

#[test]
fn register_names_become_numbers() {
    let (code, _) = assemble(lines(&[".section .text", "add a0, a1, a2"])).unwrap();
    assert_eq!(words(&code), vec![0x00C5_8533]);
}

#[test]
fn sub_and_sra_set_funct7() {
    let (code, _) = assemble(lines(&[".section .text", "sub x3, x1, x2", "sra x3, x1, x2"])).unwrap();
    assert_eq!(words(&code), vec![0x4020_81B3, 0x4020_D1B3]);
}

#[test]
fn m_extension_sets_funct7() {
    let (code, _) = assemble(lines(&[".section .text", "mul x1, x2, x3", "remu x1, x2, x3"])).unwrap();
    assert_eq!(words(&code), vec![0x0231_00B3, 0x0231_70B3]);
}

#[test]
fn li_expands_to_lui_and_addi() {
    let (code, _) = assemble(lines(&[".section .text", "li t0, 0x12345"])).unwrap();
    assert_eq!(words(&code), vec![0x0001_22B7, 0x3452_8293]);
}

#[test]
fn li_small_is_one_addi_from_zero() {
    let (code, _) = assemble(lines(&[".section .text", "li t0, 100"])).unwrap();
    assert_eq!(words(&code), vec![0x0640_0293]);
}

#[test]
fn li_negative_small_is_one_addi_from_zero() {
    let (code, _) = assemble(lines(&[".section .text", "li t0, 0xffffffff"])).unwrap();
    assert_eq!(words(&code), vec![0xFFF0_0293]);
}

#[test]
fn li_zero_is_one_addi() {
    let (code, _) = assemble(lines(&[".section .text", "li t0, 0"])).unwrap();
    assert_eq!(words(&code), vec![0x0000_0293]);
}

#[test]
fn li_without_remainder_is_one_lui() {
    let (code, _) = assemble(lines(&[".section .text", "li t0, 0x3000"])).unwrap();
    assert_eq!(words(&code), vec![0x0000_32B7]);
}

#[test]
fn li_rounds_the_upper_part() {
    // 0x800: upper part 1, remainder -2048.
    let (code, _) = assemble(lines(&[".section .text", "li t0, 0x800"])).unwrap();
    assert_eq!(words(&code), vec![0x0000_12B7, 0x8002_8293]);
}

#[test]
fn jal_to_earlier_label() {
    let (code, _) =
        assemble(lines(&[".section .text", "loop:", "addi x1, x1, 1", "jal x0, loop"])).unwrap();
    assert_eq!(words(&code), vec![0x0010_8093, 0xFFDF_F06F]);
}

#[test]
fn absolute_label_after_org() {
    let (code, data) = assemble(lines(&[".org 0x2000", ".section .text", "start:", "li t0, *start"])).unwrap();
    assert_eq!(code, vec![0xB7, 0x22, 0x00, 0x00]);
    assert!(data.is_empty());
}

#[test]
fn forward_label_in_li_keeps_room_for_two_words() {
    // The label's address is not known when `li` is sized, so it keeps both words.
    let (code, _) = assemble(lines(&[".org 0x1ff8", ".section .text", "li t0, *end", "end:", "ecall"])).unwrap();
    assert_eq!(words(&code), vec![0x0000_22B7, 0x0002_8293, 0x0000_0073]);
}

#[test]
fn data_section_layout_and_symbols() {
    let (code, data) = assemble(lines(&[
        ".section .data",
        "byte val = 17",
        "word w = 0x01020304",
        ".section .text",
        "addi t0, zero, w",
    ]))
    .unwrap();
    assert_eq!(data, vec![17, 0, 0, 0, 4, 3, 2, 1]);
    assert_eq!(words(&code), vec![0x0040_0293]);
}

#[test]
fn half_takes_two_bytes() {
    let (_, data) = assemble(lines(&[
        ".section .data",
        "byte a = 1",
        "half h = 0x1234",
        "byte b = 2",
        ".section .text",
        "ecall",
    ]))
    .unwrap();
    assert_eq!(data, vec![1, 0, 0x34, 0x12, 2]);
}

#[test]
fn comments_are_dropped() {
    let (code, _) = assemble(lines(&[
        "# a program",
        ".section .text",
        "  add x1, x2, x3   # sum",
        "# done",
    ]))
    .unwrap();
    assert_eq!(words(&code), vec![0x0031_00B3]);
}

#[test]
fn branch_store_load_and_system() {
    let (code, _) = assemble(lines(&[
        ".section .text",
        "beq x1, x2, 8",
        "sw x2, x1, 8",
        "lw x3, x1, -4",
        "ecall",
    ]))
    .unwrap();
    assert_eq!(words(&code), vec![0x0020_8463, 0x0020_A423, 0xFFC0_A183, 0x0000_0073]);
}

#[test]
fn lui_and_auipc() {
    let (code, _) = assemble(lines(&[".section .text", "lui x1, 0x12345", "auipc x2, 1"])).unwrap();
    assert_eq!(words(&code), vec![0x1234_50B7, 0x0000_1117]);
}

#[test]
fn bad_register_number_is_an_error() {
    let r = assemble(lines(&[".section .text", "addi xq, x0, 1"]));
    assert_eq!(r, Err(IntErrorKind::InvalidDigit));
}

#[test]
fn empty_register_number_is_an_error() {
    let r = assemble(lines(&[".section .text", "addi x, x0, 1"]));
    assert_eq!(r, Err(IntErrorKind::Empty));
}

#[test]
fn immediate_out_of_range_is_an_error() {
    let r = assemble(lines(&[".section .text", "addi x1, x0, -99999999999"]));
    assert_eq!(r, Err(IntErrorKind::NegOverflow));
}

#[test]
fn first_failing_operand_decides() {
    // A store reads its base register (the second operand) first.
    let r = assemble(lines(&[".section .text", "sw x, xz, 0"]));
    assert_eq!(r, Err(IntErrorKind::InvalidDigit));
}

#[test]
fn or_assembles_as_or() {
    let (code, _) = assemble(lines(&[".section .text", "or x1, x2, x3"])).unwrap();
    assert_eq!(words(&code), vec![0x0031_60B3]);
}

#[test]
fn ebreak_and_ecall_differ() {
    let (code, _) = assemble(lines(&[".section .text", "ebreak", "ecall"])).unwrap();
    assert_eq!(words(&code), vec![0x0010_0073, 0x0000_0073]);
}

#[test]
fn srai_is_an_arithmetic_shift() {
    let (code, _) = assemble(lines(&[".section .text", "srai t0, t1, 3", "srli t0, t1, 3"])).unwrap();
    assert_eq!(words(&code), vec![0x4033_5293, 0x0033_5293]);
}

#[test]
fn negative_branch_and_store_offsets() {
    let (code, _) = assemble(lines(&[".section .text", "beq zero, zero, -4", "sw t1, t0, -4"])).unwrap();
    assert_eq!(words(&code), vec![0xFE00_0EE3, 0xFE62_AE23]);
}

#[test]
fn labels_count_the_words_of_li() {
    let (code, _) = assemble(lines(&[".section .text", "target:", "li t0, 0x12345", "jal zero, target"])).unwrap();
    assert_eq!(words(&code), vec![0x0001_22B7, 0x3452_8293, 0xFF9F_F06F]);
}

#[test]
fn labels_after_li_are_where_the_words_are() {
    let (code, _) = assemble(lines(&[".section .text", "li t0, 1", "here:", "jal zero, here"])).unwrap();
    // `li t0, 1` is one word, so the jal at 0x1004 jumps to itself.
    assert_eq!(words(&code), vec![0x0010_0293, 0x0000_006F]);
}

#[test]
fn named_first_data_declarations() {
    let (code, data) = assemble(lines(&[
        ".section .data",
        "value: byte = 17",
        "count: word = 5",
        ".section .text",
        "addi t0, zero, count",
    ]))
    .unwrap();
    assert_eq!(data, vec![17, 0, 0, 0, 5, 0, 0, 0]);
    assert_eq!(words(&code), vec![0x0040_0293]);
}

#[test]
fn build_makes_an_object_file() {
    let src = lines(&[".section .data", "byte v = 1", ".section .text", "ecall"]);
    let obj = build(src).unwrap();
    assert_eq!(obj, newfile(vec![1], vec![0x73, 0, 0, 0]));
    let (d, t) = parsebin(&obj);
    assert_eq!(d, &[1u8][..]);
    assert_eq!(t, &[0x73u8, 0, 0, 0][..]);
}

#[test]
fn build_reports_operand_errors() {
    assert_eq!(build(lines(&[".section .text", "addi x1, x, 1"])), Err(IntErrorKind::Empty));
}

#[test]
fn refused_sources() {
    // No .text section.
    assert_eq!(assemble_checked(lines(&[".section .data", "byte a = 1"])), None);
    // An unknown directive.
    assert_eq!(assemble_checked(lines(&[".globl main", ".section .text", "ecall"])), None);
    // An unknown mnemonic.
    assert_eq!(assemble_checked(lines(&[".section .text", "nop"])), None);
    // A fence.
    assert_eq!(assemble_checked(lines(&[".section .text", "fence"])), None);
    // A missing operand.
    assert_eq!(assemble_checked(lines(&[".section .text", "addi x1, x2"])), None);
    // A byte too large.
    assert_eq!(assemble_checked(lines(&[".section .data", "byte a = 256", ".section .text", "ecall"])), None);
    // A type the data section does not know.
    assert_eq!(assemble_checked(lines(&[".section .data", "string s = \"hi\"", ".section .text", "ecall"])), None);
    // A number that does not parse.
    assert_eq!(assemble_checked(lines(&[".section .text", "addi x1, x0, 0xzz"])), None);
}

#[test]
fn checked_assembly_agrees() {
    let src = lines(&[".section .text", "addi x1, x0, 5"]);
    assert_eq!(assemble_checked(src.clone()), Some(assemble(src)));
    assert_eq!(assemble_checked(lines(&[".section .text", "addi xq, x0, 1"])), Some(Err(IntErrorKind::InvalidDigit)));
}
