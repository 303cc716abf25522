use extract_edisks::error::ExtractError;
use extract_edisks::table::parse_entry;
use extract_edisks::table::read_block_table;
use extract_edisks::table::signed_offset;
use extract_edisks::table::BlockEntry;

#[test]
fn signed_offset_wraps_at_the_sign_bit() {
    assert_eq!(signed_offset(0x80_0000), -8_388_608);
    assert_eq!(signed_offset(0x7f_ffff), 8_388_607);
}

#[test]
fn signed_offset_of_small_and_large_values() {
    assert_eq!(signed_offset(0), 0);
    assert_eq!(signed_offset(1), 1);
    assert_eq!(signed_offset(0xff_ffff), -1);
    assert_eq!(signed_offset(0x80_0001), -8_388_607);
    assert_eq!(signed_offset(0xff_fe00), -512);
}

#[test]
fn signed_offset_ignores_the_mode_byte() {
    assert_eq!(signed_offset(0x02ff_ffff), -1);
    assert_eq!(signed_offset(0x0100_0200), 0x200);
    assert_eq!(signed_offset(0xff80_0000), -8_388_608);
}

#[test]
fn parse_entry_splits_mode_and_offset() {
    assert_eq!(parse_entry(0x0000_0000), Ok(BlockEntry { mode: 0, offset: 0 }));
    assert_eq!(parse_entry(0x0100_0400), Ok(BlockEntry { mode: 1, offset: 0x400 }));
    assert_eq!(parse_entry(0x02ff_fff0), Ok(BlockEntry { mode: 2, offset: -16 }));
    assert_eq!(parse_entry(0x0080_0000), Ok(BlockEntry { mode: 0, offset: -8_388_608 }));
}

#[test]
fn parse_entry_refuses_other_modes() {
    assert_eq!(parse_entry(0x0300_0000), Err(ExtractError::UnsupportedBlockMode));
    assert_eq!(parse_entry(0xff00_0010), Err(ExtractError::UnsupportedBlockMode));
}

#[test]
fn read_block_table_reads_entries_in_order() {
    let mut mem = vec![0u8; 8];
    mem.extend_from_slice(&[0x00, 0x00, 0x00, 0x00]);
    mem.extend_from_slice(&[0x01, 0x00, 0x02, 0x00]);
    mem.extend_from_slice(&[0x02, 0xff, 0xff, 0xfc]);
    let table = read_block_table(&mem, 4, 4, 3);
    assert_eq!(
        table,
        Ok(vec![
            BlockEntry { mode: 0, offset: 0 },
            BlockEntry { mode: 1, offset: 0x200 },
            BlockEntry { mode: 2, offset: -4 },
        ])
    );
}

#[test]
fn read_block_table_of_no_entries_is_empty() {
    let mem = [0u8; 4];
    assert_eq!(read_block_table(&mem, 100, 7, 0), Ok(vec![]));
}

#[test]
fn read_block_table_past_the_end_is_out_of_bounds() {
    let mem = [0u8; 10];
    assert_eq!(read_block_table(&mem, 0, 4, 2), Err(ExtractError::OutOfBounds));
    assert_eq!(read_block_table(&mem, 0, 2, 2), Ok(vec![BlockEntry { mode: 0, offset: 0 }; 2]));
    assert_eq!(read_block_table(&mem, usize::MAX, u32::MAX, 1), Err(ExtractError::OutOfBounds));
}

#[test]
fn read_block_table_reports_the_first_fault() {
    let mut mem = vec![0x03u8, 0, 0, 0];
    mem.extend_from_slice(&[0x00, 0, 0, 0]);
    assert_eq!(read_block_table(&mem, 0, 0, 3), Err(ExtractError::UnsupportedBlockMode));
    let mut mem = vec![0x00u8, 0, 0, 0];
    mem.extend_from_slice(&[0x04, 0, 0]);
    assert_eq!(read_block_table(&mem, 0, 0, 2), Err(ExtractError::OutOfBounds));
}
