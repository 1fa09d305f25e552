use riscy::devices::{Bus, Device, DeviceOption, VGATextBuffer};
use riscy::memory::{DataEnsuredMemory, Page, Random, StandardAccess, StdMemory};
use riscy::risclib::Trap;

#[test]
fn std_memory_reads_zero_where_nothing_was_written() {
    let m = StdMemory::new();
    assert_eq!(m.load_word(0x1234), Ok(0));
    assert_eq!(m.load_byte(0xffff_fff0), Ok(0));
    assert!(m.getpage(0x1234).is_err());
}

#[test]
fn std_memory_word_round_trip() {
    let mut m = StdMemory::new();
    m.store_word(0x2ffe, 0x1234_5678).unwrap();
    assert_eq!(m.load_word(0x2ffe), Ok(0x1234_5678));
    assert_eq!(m.load_byte(0x2ffe), Ok(0x78));
    assert_eq!(m.load_byte(0x3001), Ok(0x12));
    assert!(m.getpage(0x2000).is_ok());
    assert!(m.getpage(0x3000).is_ok());
}

#[test]
fn std_memory_half_is_zero_extended_and_byte_sign_extended() {
    let mut m = StdMemory::new();
    m.store_half(0x10, -2).unwrap();
    assert_eq!(m.load_half(0x10), Ok(0xfffe));
    assert_eq!(m.load_half_us(0x10), Ok(0xfffe));
    m.store_byte(0x20, 0x180).unwrap();
    assert_eq!(m.load_byte(0x20), Ok(-128));
    assert_eq!(m.load_byte_us(0x20), Ok(0x80));
}

#[test]
fn std_memory_access_by_type() {
    let mut m = StdMemory::new();
    m.store_thru_type(0x40, -1, 2).unwrap();
    assert_eq!(m.load_thru_type(0x40, 0), Ok(-1));
    assert_eq!(m.load_thru_type(0x40, 4), Ok(0xff));
    assert_eq!(m.load_thru_type(0x40, 5), Ok(0xffff));
    assert_eq!(m.load_thru_type(0x40, 3), Err(Trap::ILLEGAL_INSTRUCTION));
    assert_eq!(m.store_thru_type(0x40, 0, 3), Err(Trap::ILLEGAL_INSTRUCTION));
    assert_eq!(m.load_thru_type(0x40, 2), Ok(-1));
}

#[test]
fn page_bytes() {
    let mut p = Page::new();
    assert_eq!(p.read_byte(17), Ok(0));
    p.write_byte(17, 0x1ab).unwrap();
    assert_eq!(p.read_byte(17), Ok(0xab));
}

#[test]
fn data_ensured_memory_round_trip_and_alignment() {
    let mut m = DataEnsuredMemory::new(16);
    assert_eq!(m.len(), 16);
    m.store_word(4, 0x0102_0304).unwrap();
    assert_eq!(m.load_word(4), Ok(0x0102_0304));
    assert_eq!(m.load_half(6), Ok(0x0102));
    assert_eq!(m.load_byte(5), Ok(0x03));
    assert_eq!(m.load_word(2), Err(Trap::LOAD_ADDRESS_MISALIGNED));
    assert_eq!(m.store_half(3, 1), Err(Trap::STORE_ADDRESS_MISALIGNED));
    assert_eq!(m.store_word(6, 1), Err(Trap::STORE_ADDRESS_MISALIGNED));
    // A store past the end is dropped.
    m.store_byte(100, 7).unwrap();
    assert_eq!(m.len(), 16);
}

#[test]
fn random_loads_stay_in_range() {
    let r = Random::new();
    for _ in 0..200 {
        let b = r.load_byte(0).unwrap();
        assert!((0..=255).contains(&b));
        let h = r.load_half(0).unwrap();
        assert!((0..=0xffff).contains(&h));
    }
}

fn test_font() -> Vec<u8> {
    let mut glyphs = vec![0u8; 4096];
    for row in 0..16 {
        glyphs[0x41 * 16 + row] = 0b1000_0001;
    }
    glyphs
}

#[test]
fn bus_routes_by_address() {
    let mut bus = Bus::new(vec![
        Device::new(0, 0x1000, DeviceOption::StdMem(StdMemory::new())),
        Device::new(0x2000, 0x2010, DeviceOption::Memory(DataEnsuredMemory::new(16))),
    ]);
    bus.store(0x10, 0x55, 0).unwrap();
    assert_eq!(bus.load(0x10, 0), Ok(0x55));
    bus.store(0x2004, 0x0a0b_0c0d, 2).unwrap();
    assert_eq!(bus.load(0x2004, 2), Ok(0x0a0b_0c0d));
    assert_eq!(bus.load(0x2004, 4), Ok(0x0d));
    assert_eq!(bus.load(0x2006, 5), Ok(0x0a0b));
    assert_eq!(bus.load(0x1800, 2), Err(Trap::LOAD_ACCESS_FAULT));
    assert_eq!(bus.store(0x1800, 1, 2), Err(Trap::STORE_ACCESS_FAULT));
    assert_eq!(bus.load(0x10, 3), Err(Trap::ILLEGAL_INSTRUCTION));
    assert_eq!(bus.store(0x10, 1, 3), Err(Trap::ILLEGAL_INSTRUCTION));
    assert!(bus.find_devr_from_addr(0x10).is_ok());
    assert_eq!(bus.find_devr_from_addr(0x1800).err(), Some(Trap::LOAD_ACCESS_FAULT));
}

#[test]
fn bus_first_device_answers_where_ranges_overlap() {
    let mut bus = Bus::new(vec![
        Device::new(0, 0x100, DeviceOption::StdMem(StdMemory::new())),
        Device::new(0, 0x100, DeviceOption::Memory(DataEnsuredMemory::new(0x100))),
    ]);
    bus.store(0x8, 9, 0).unwrap();
    assert_eq!(bus.load(0x8, 0), Ok(9));
}

#[test]
fn display_cannot_be_read() {
    let mut bus = Bus::new(vec![Device::new(0xb8000, 0xb8000 + 4000, DeviceOption::VGATextBuffer(VGATextBuffer::new(test_font())))]);
    bus.store(0xb8000, 0x0f41, 1).unwrap();
    assert_eq!(bus.load(0xb8000, 1), Err(Trap::LOAD_ACCESS_FAULT));
}

#[test]
fn display_draws_its_text_after_a_full_pass() {
    let mut bus = Bus::new(vec![Device::new(0xb8000, 0xb8000 + 4000, DeviceOption::VGATextBuffer(VGATextBuffer::new(test_font())))]);
    // 'A' in white on blue at the top left cell.
    bus.store(0xb8000, 0x1f41, 1).unwrap();
    let mut frame = None;
    for _ in 0..25 {
        match bus.tick_display() {
            Some(Ok(Some(f))) => frame = Some(f),
            Some(Ok(None)) => {}
            other => panic!("unexpected tick result {:?}", other.is_some()),
        }
    }
    let frame = frame.expect("a frame after 25 rows");
    assert_eq!(frame.len(), 640 * 400);
    assert_eq!(frame[0], 0xffffff);
    assert_eq!(frame[1], 0x0000ff);
    assert_eq!(frame[7], 0xffffff);
    assert_eq!(frame[15 * 640 + 7], 0xffffff);
    // Cells holding character 0 are not drawn.
    assert_eq!(frame[8], 0);
}

#[test]
fn no_display_no_tick() {
    let mut bus = Bus::new(vec![Device::new(0, 0x100, DeviceOption::StdMem(StdMemory::new()))]);
    assert!(bus.tick_display().is_none());
}

#[test]
fn device_kind_names() {
    assert_eq!(DeviceOption::StdMem(StdMemory::new()).expose(), "Memory (virtual)");
    assert_eq!(DeviceOption::Memory(DataEnsuredMemory::new(1)).expose(), "Memory");
    assert_eq!(DeviceOption::Random(Random::new()).expose(), "Random");
}

#[test]
fn ram_anywhere_reads_back_stores() {
    let mut bus = Bus::new(vec![Device::new(0x4000_0000, 0x4010_0000, DeviceOption::StdMem(StdMemory::new()))]);
    bus.store(0x4000_1000, -2, 2).unwrap();
    assert_eq!(bus.load(0x4000_1000, 2), Ok(-2));
    bus.store(0x4000_2000, 0x1_2345, 1).unwrap();
    assert_eq!(bus.load(0x4000_2000, 5), Ok(0x2345));
    bus.store(0x4000_3000, 0x180, 0).unwrap();
    assert_eq!(bus.load(0x4000_3000, 0), Ok(-128));
    assert_eq!(bus.load(0x4000_3001, 4), Ok(0));
}
