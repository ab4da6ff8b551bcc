use gba_make_cartridge::fix_header::fix_header;

const GAME_TITLE: [u8; 12] = [60, 0, 0, 0, 0, 0, 0, 0, 0, 0, 0, 0];
const GAME_CODE: [u8; 4] = [60, 61, 62, 63];
const MANU_CODE: [u8; 2] = [64, 65];
const VERSION: u8 = 1;

#[test]
fn first_four_bytes_unchanged() {
    let first_four = [0xAA, 0xBB, 0xCC, 0xDD];
    let mut header = vec![0u8; 4];
    header[0..4].copy_from_slice(&first_four);
    assert!(fix_header(&mut header, &GAME_TITLE, &GAME_CODE, &MANU_CODE, VERSION).is_ok());
    assert_eq!(&header[0..4], &first_four[..])
}

#[test]
fn valid_metadata() {
    let mut header = vec![0xCA; 0xD0];
    assert!(fix_header(&mut header, &GAME_TITLE, &GAME_CODE, &MANU_CODE, VERSION).is_ok());
    assert_eq!(&header[0xA0..0xAC], &GAME_TITLE);
    assert_eq!(&header[0xAC..0xB0], &GAME_CODE);
    assert_eq!(&header[0xB0..0xB2], &MANU_CODE);
    assert_eq!(header[0xB2], 0x96); // fixed value
    assert_eq!(header[0xB3], 0x00); // main unit code
    assert_eq!(header[0xB4] & 0x7F, 0x00); // sub-device
    assert_eq!(&header[0xB5..0xBC], &[0; 7]); // reserved
    assert_eq!(header[0xBC], VERSION); // version
    assert_eq!(&header[0xBE..0xC0], &[0, 0]); // reserved
}

#[test]
fn no_overwrite() {
    let rom_data = [0xBA; 0x10];
    let mut header = vec![0xCA; 0xD0];
    header[0xC0..0xD0].copy_from_slice(&rom_data);
    assert!(fix_header(&mut header, &GAME_TITLE, &GAME_CODE, &MANU_CODE, VERSION).is_ok());
    assert_eq!(&header[0xC0..0xD0], &rom_data);
}

#[test]
fn checksum_matches_formula() {
    // Canonical fixture: title sums to 60, game code to 246, maker code to
    // 129; the marker adds 0x96, the preserved device bit 0x80 (the old byte
    // 0xCA has its top bit set) and the version 1.
    let mut header = vec![0xCA; 0xD0];
    assert!(fix_header(&mut header, &GAME_TITLE, &GAME_CODE, &MANU_CODE, VERSION).is_ok());
    let sum: u32 = header[0xA0..0xBD].iter().map(|&b| b as u32).sum();
    let expected = ((0x100 - ((sum + 0x19) % 0x100)) % 0x100) as u8;
    assert_eq!(header[0xBD], expected);
    assert_eq!(header[0xBD], 29);
}

#[test]
fn checksum_recomputed_from_final_bytes() {
    // A stream whose old header bytes differ wildly from the new ones: the
    // checksum must come from the bytes after the fixup, not before it.
    let mut header: Vec<u8> = (0..0xC0).map(|i| (i * 7 + 3) as u8).collect();
    let title = *b"HELLOCART\0\0\0";
    let game = *b"ABCD";
    let maker = *b"XY";
    assert!(fix_header(&mut header, &title, &game, &maker, 5).is_ok());
    let sum: u32 = header[0xA0..0xBD].iter().map(|&b| b as u32).sum();
    let expected = ((0x100 - ((sum + 0x19) % 0x100)) % 0x100) as u8;
    assert_eq!(header[0xBD], expected);
}

#[test]
fn device_type_bit_set_is_kept() {
    // Old device-type byte 0xCA: bit 7 set, so the fixed byte is 0x80.
    let mut header = vec![0xCA; 0xD0];
    assert!(fix_header(&mut header, &GAME_TITLE, &GAME_CODE, &MANU_CODE, VERSION).is_ok());
    assert_eq!(header[0xB4], 0x80);
}

#[test]
fn device_type_bit_clear_stays_clear() {
    // Old device-type byte 0x4B: bit 7 clear, so the fixed byte is 0x00.
    let mut header = vec![0x4B; 0xD0];
    assert!(fix_header(&mut header, &GAME_TITLE, &GAME_CODE, &MANU_CODE, VERSION).is_ok());
    assert_eq!(header[0xB4], 0x00);
}

#[test]
fn fixing_twice_equals_fixing_once() {
    let mut once = vec![0xCA; 0xD0];
    assert!(fix_header(&mut once, &GAME_TITLE, &GAME_CODE, &MANU_CODE, VERSION).is_ok());
    let mut twice = once.clone();
    assert!(fix_header(&mut twice, &GAME_TITLE, &GAME_CODE, &MANU_CODE, VERSION).is_ok());
    assert_eq!(once, twice);
}

#[test]
fn fixture_tail_bytes_unchanged() {
    // The canonical fixture again: the payload bytes [0xC0, 0xD0) keep their
    // initial 0xCA after the fixup.
    let mut header = vec![0xCA; 0xD0];
    assert!(fix_header(&mut header, &GAME_TITLE, &GAME_CODE, &MANU_CODE, VERSION).is_ok());
    assert_eq!(&header[0xC0..0xD0], &[0xCA; 0x10]);
    assert_eq!(header.len(), 0xD0);
}

#[test]
fn short_stream_grows_to_header_end() {
    // Writing the header past the end of a 4-byte image zero-extends it up
    // to the end of the header region, exactly as a byte store does.
    let mut header = vec![0xAAu8, 0xBB, 0xCC, 0xDD];
    assert!(fix_header(&mut header, &GAME_TITLE, &GAME_CODE, &MANU_CODE, VERSION).is_ok());
    assert_eq!(header.len(), 0xC0);
    assert_eq!(&header[4..0xA0], &vec![0u8; 0xA0 - 4][..]);
    assert_eq!(&header[0xA0..0xAC], &GAME_TITLE);
    // The old byte at the device-type offset did not exist, so its bit 7
    // reads as clear.
    assert_eq!(header[0xB4], 0x00);
}
