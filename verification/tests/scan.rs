use extract_edisks::disk::try_extract;
use extract_edisks::scan::scan_offsets;
use extract_edisks::scan::SCAN_STRIDE;

#[test]
fn scan_offsets_of_a_short_buffer_are_none() {
    assert_eq!(scan_offsets(0), Vec::<usize>::new());
    assert_eq!(scan_offsets(511), Vec::<usize>::new());
}

#[test]
fn scan_offsets_step_by_the_stride() {
    assert_eq!(SCAN_STRIDE, 65536);
    assert_eq!(scan_offsets(512), vec![0]);
    assert_eq!(scan_offsets(0x1_0000), vec![0]);
    assert_eq!(scan_offsets(0x3_0000), vec![0, 0x1_0000, 0x2_0000]);
}

#[test]
fn scan_offsets_skip_a_tail_without_room_for_a_header() {
    assert_eq!(scan_offsets(0x1_0000 + 511), vec![0]);
    assert_eq!(scan_offsets(0x1_0000 + 512), vec![0, 0x1_0000]);
    assert_eq!(scan_offsets(0x2_0000 + 1), vec![0, 0x1_0000]);
}

#[test]
fn scan_finds_each_container() {
    let mut mem = vec![0u8; 0x2_0000 + 1024];
    for location in [0x1_0000usize, 0x2_0000] {
        mem[location + 132..location + 144].copy_from_slice(b"EDisk Gary D");
        mem[location + 128..location + 130].copy_from_slice(&512u16.to_be_bytes());
        mem[location + 130..location + 132].copy_from_slice(&1u16.to_be_bytes());
        mem[location + 144..location + 148].copy_from_slice(&512u32.to_be_bytes());
        mem[location + 156..location + 160].copy_from_slice(&512u32.to_be_bytes());
        mem[location + 160..location + 164].copy_from_slice(&516u32.to_be_bytes());
    }
    let found: Vec<usize> = scan_offsets(mem.len())
        .into_iter()
        .filter(|&location| try_extract(&mem, location) == Ok(Some(vec![0u8; 512])))
        .collect();
    assert_eq!(found, vec![0x1_0000, 0x2_0000]);
    assert_eq!(try_extract(&mem, 0), Ok(None));
}
