use gb_memory::{Memory, OutOfBounds};

#[test]
fn fresh_memory_reads_zero_everywhere() {
    let m = Memory::new();
    for a in 0x8000u16..=0xFDFF {
        assert_eq!(m.read(a), Ok(0));
    }
    for a in 0xFE00u16..=0xFE9F {
        assert_eq!(m.read(a), Ok(0));
    }
    assert_eq!(m.read(0xFFFF), Ok(0));
}

#[test]
fn byte_round_trip_every_mapped_address() {
    let mut m = Memory::new();
    for a in 0x8000u16..=0xFDFF {
        let v = (a & 0xFF) as u8;
        assert_eq!(m.write(a, v), Ok(()));
        assert_eq!(m.read(a), Ok(v));
    }
    for a in 0xFE00u16..=0xFE9F {
        let v = (a & 0xFF) as u8 ^ 0x5A;
        assert_eq!(m.write(a, v), Ok(()));
        assert_eq!(m.read(a), Ok(v));
    }
    assert_eq!(m.write(0xFFFF, 0xC7), Ok(()));
    assert_eq!(m.read(0xFFFF), Ok(0xC7));
}

#[test]
fn unmapped_addresses_are_rejected() {
    let mut m = Memory::new();
    for a in 0x0000u16..=0x7FFF {
        assert_eq!(m.read(a), Err(OutOfBounds));
        assert_eq!(m.write(a, 0xAA), Err(OutOfBounds));
    }
    for a in 0xFEA0u16..=0xFFFE {
        assert_eq!(m.read(a), Err(OutOfBounds));
        assert_eq!(m.write(a, 0xAA), Err(OutOfBounds));
    }
}

#[test]
fn echo_window_mirrors_internal_ram() {
    let mut m = Memory::new();
    assert_eq!(m.write(0xC005, 0xAB), Ok(()));
    assert_eq!(m.read(0xE005), Ok(0xAB));
    assert_eq!(m.write(0xE123, 0x7C), Ok(()));
    assert_eq!(m.read(0xC123), Ok(0x7C));
    // The last echo byte aliases internal offset 7679, i.e. 0xDDFF.
    assert_eq!(m.write(0xFDFF, 0x5A), Ok(()));
    assert_eq!(m.read(0xDDFF), Ok(0x5A));
    assert_eq!(m.read(0xDFFF), Ok(0));
}

#[test]
fn internal_ram_tail_is_not_mirrored() {
    let mut m = Memory::new();
    // Offsets 7680..8192 of internal RAM (0xDE00..=0xDFFF) have no echo alias.
    for a in 0xDE00u16..=0xDFFF {
        assert_eq!(m.write(a, 0x99), Ok(()));
    }
    for a in 0xE000u16..=0xFDFF {
        assert_eq!(m.read(a), Ok(0));
    }
    assert_eq!(m.read(0xDE00), Ok(0x99));
    assert_eq!(m.read(0xDFFF), Ok(0x99));
}

#[test]
fn word_round_trip() {
    let mut m = Memory::new();
    assert_eq!(m.write_word(0x8000, 0x1234), Ok(()));
    assert_eq!(m.read_word(0x8000), Ok(0x1234));
    assert_eq!(m.write_word(0xA100, 0xFFFF), Ok(()));
    assert_eq!(m.read_word(0xA100), Ok(0xFFFF));
    assert_eq!(m.write_word(0xFE00, 0x00FF), Ok(()));
    assert_eq!(m.read_word(0xFE00), Ok(0x00FF));
}

#[test]
fn word_is_stored_little_endian() {
    let mut m = Memory::new();
    assert_eq!(m.write_word(0x8000, 0x1234), Ok(()));
    assert_eq!(m.read(0x8000), Ok(0x34));
    assert_eq!(m.read(0x8001), Ok(0x12));
}

#[test]
fn dword_round_trip() {
    let mut m = Memory::new();
    assert_eq!(m.write_dword(0x8000, 32), Ok(()));
    assert_eq!(m.read_dword(0x8000), Ok(32));
    assert_eq!(m.write_dword(0xC3F0, 0xDEAD_BEEF), Ok(()));
    assert_eq!(m.read_dword(0xC3F0), Ok(0xDEAD_BEEF));
}

#[test]
fn dword_is_stored_little_endian() {
    let mut m = Memory::new();
    assert_eq!(m.write_dword(0x9000, 0x0102_0304), Ok(()));
    assert_eq!(m.read(0x9000), Ok(0x04));
    assert_eq!(m.read(0x9001), Ok(0x03));
    assert_eq!(m.read(0x9002), Ok(0x02));
    assert_eq!(m.read(0x9003), Ok(0x01));
}

#[test]
fn word_write_crossing_region_boundary() {
    let mut m = Memory::new();
    // 0x9FFF is the last video-RAM byte, 0xA000 the first bank byte.
    assert_eq!(m.write_word(0x9FFF, 0xABCD), Ok(()));
    assert_eq!(m.read(0x9FFF), Ok(0xCD));
    assert_eq!(m.read(0xA000), Ok(0xAB));
    assert_eq!(m.read_word(0x9FFF), Ok(0xABCD));
}

#[test]
fn word_write_at_last_address_writes_low_byte_then_fails() {
    let mut m = Memory::new();
    // The second byte goes to 0xFFFF + 1, which wraps to the unmapped 0x0000,
    // after the low byte has already reached the interrupt-enable register.
    assert_eq!(m.write_word(0xFFFF, 0xBEEF), Err(OutOfBounds));
    assert_eq!(m.read(0xFFFF), Ok(0xEF));
    assert_eq!(m.read_word(0xFFFF), Err(OutOfBounds));
}

#[test]
fn dword_write_past_oam_end_is_partial() {
    let mut m = Memory::new();
    // 0xFE9D..=0xFE9F are the last OAM bytes; 0xFEA0 is unmapped, so the
    // fourth byte is rejected after the first three have landed.
    assert_eq!(m.write_dword(0xFE9D, 0x1122_3344), Err(OutOfBounds));
    assert_eq!(m.read(0xFE9D), Ok(0x44));
    assert_eq!(m.read(0xFE9E), Ok(0x33));
    assert_eq!(m.read(0xFE9F), Ok(0x22));
    assert_eq!(m.read_dword(0xFE9D), Err(OutOfBounds));
}

#[test]
fn multi_byte_access_at_unmapped_start_changes_nothing() {
    let mut m = Memory::new();
    assert_eq!(m.write_word(0x7FFF, 0x1234), Err(OutOfBounds));
    assert_eq!(m.write_dword(0x0000, 0x5678_9ABC), Err(OutOfBounds));
    assert_eq!(m.read_word(0x7FFF), Err(OutOfBounds));
    assert_eq!(m.read_dword(0xFFFC), Err(OutOfBounds));
    for a in 0x8000u16..=0x8010 {
        assert_eq!(m.read(a), Ok(0));
    }
}

#[test]
fn regions_are_disjoint() {
    let mut m = Memory::new();
    assert_eq!(m.write(0x8000, 1), Ok(()));
    assert_eq!(m.write(0xA000, 2), Ok(()));
    assert_eq!(m.write(0xC000, 3), Ok(()));
    assert_eq!(m.write(0xFE00, 4), Ok(()));
    assert_eq!(m.write(0xFFFF, 5), Ok(()));
    assert_eq!(m.read(0x8000), Ok(1));
    assert_eq!(m.read(0xA000), Ok(2));
    assert_eq!(m.read(0xC000), Ok(3));
    assert_eq!(m.read(0xE000), Ok(3));
    assert_eq!(m.read(0xFE00), Ok(4));
    assert_eq!(m.read(0xFFFF), Ok(5));
    // Same offset in every other region is untouched.
    assert_eq!(m.read(0x8001), Ok(0));
    assert_eq!(m.read(0xA001), Ok(0));
    assert_eq!(m.read(0xC001), Ok(0));
    assert_eq!(m.read(0xFE01), Ok(0));
}

#[test]
fn interrupt_enable_register_stores_raw_byte() {
    let mut m = Memory::new();
    assert_eq!(m.read(0xFFFF), Ok(0));
    assert_eq!(m.write(0xFFFF, 0xFF), Ok(()));
    assert_eq!(m.read(0xFFFF), Ok(0xFF));
    assert_eq!(m.write(0xFFFF, 0x01), Ok(()));
    assert_eq!(m.read(0xFFFF), Ok(0x01));
}
