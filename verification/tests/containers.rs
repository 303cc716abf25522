use extract_edisks::disk::extract_disk;
use extract_edisks::disk::try_extract;
use extract_edisks::error::ExtractError;
use extract_edisks::header::parse_header;
use extract_edisks::header::Descriptor;
use extract_edisks::header::EDISK_MAGIC;
use extract_edisks::table::BlockEntry;

fn put_word(mem: &mut [u8], at: usize, value: u16) {
    mem[at..at + 2].copy_from_slice(&value.to_be_bytes());
}

fn put_long(mem: &mut [u8], at: usize, value: u32) {
    mem[at..at + 4].copy_from_slice(&value.to_be_bytes());
}

fn header(block_size: u16, version: u16, disk_length: u32, table: u32, data: u32) -> Vec<u8> {
    let mut window = vec![0u8; 512];
    window[132..144].copy_from_slice(b"EDisk Gary D");
    put_word(&mut window, 128, block_size);
    put_word(&mut window, 130, version);
    put_long(&mut window, 144, disk_length);
    put_long(&mut window, 156, table);
    put_long(&mut window, 160, data);
    window
}

fn container(disk_length: u32, entries: &[u32], data: &[u8]) -> Vec<u8> {
    let table_at = 512u32;
    let data_at = table_at + 4 * entries.len() as u32;
    let mut mem = header(512, 1, disk_length, table_at, data_at);
    for entry in entries {
        mem.extend_from_slice(&entry.to_be_bytes());
    }
    mem.extend_from_slice(data);
    mem
}

#[test]
fn magic_is_the_signature_text() {
    assert_eq!(&EDISK_MAGIC, b"EDisk Gary D");
}

#[test]
fn parse_header_reads_the_fields() {
    let window = header(512, 1, 0x0012_3400, 0x0000_0200, 0x0001_0000);
    assert_eq!(
        parse_header(&window),
        Ok(Some(Descriptor {
            block_size: 512,
            version: 1,
            disk_length: 0x0012_3400,
            block_table_offset: 0x200,
            data_region_offset: 0x1_0000,
        }))
    );
}

#[test]
fn parse_header_without_signature_finds_nothing() {
    assert_eq!(parse_header(&[0u8; 512]), Ok(None));
    let mut window = header(512, 1, 512, 0, 0);
    window[143] = b'd';
    assert_eq!(parse_header(&window), Ok(None));
    let mut window = header(7, 9, 13, 0, 0);
    window[132] = 0;
    assert_eq!(parse_header(&window), Ok(None));
}

#[test]
fn parse_header_refuses_other_versions_and_block_sizes() {
    assert_eq!(parse_header(&header(512, 2, 512, 0, 0)), Err(ExtractError::UnsupportedFormat));
    assert_eq!(parse_header(&header(512, 0, 512, 0, 0)), Err(ExtractError::UnsupportedFormat));
    assert_eq!(parse_header(&header(1024, 1, 1024, 0, 0)), Err(ExtractError::UnsupportedFormat));
    assert_eq!(parse_header(&header(256, 3, 100, 0, 0)), Err(ExtractError::UnsupportedFormat));
}

#[test]
fn parse_header_refuses_a_length_that_is_no_multiple() {
    assert_eq!(parse_header(&header(512, 1, 513, 0, 0)), Err(ExtractError::MalformedLength));
    assert_eq!(parse_header(&header(512, 1, 511, 0, 0)), Err(ExtractError::MalformedLength));
    assert_eq!(parse_header(&header(512, 1, 1, 0, 0)), Err(ExtractError::MalformedLength));
    assert!(matches!(parse_header(&header(512, 1, 0, 0, 0)), Ok(Some(_))));
}

#[test]
fn extract_disk_joins_blocks_in_table_order() {
    let mut mem = vec![0u8; 100];
    mem.extend(vec![0xffu8; 512]);
    mem.extend(vec![0xfeu8; 512]);
    let entries = vec![
        BlockEntry { mode: 0, offset: 512 },
        BlockEntry { mode: 0, offset: 0 },
        BlockEntry { mode: 0, offset: 0 },
        BlockEntry { mode: 0, offset: 0 },
    ];
    let image = extract_disk(&mem, 60, 40, &entries).unwrap();
    assert_eq!(image.len(), 2048);
    assert!(image[..512].iter().all(|&b| b == 2));
    assert!(image[512..].iter().all(|&b| b == 0));
    let entries = vec![BlockEntry { mode: 0, offset: 512 }, BlockEntry { mode: 0, offset: 1 }];
    let image = extract_disk(&mem, 99, 0, &entries).unwrap();
    assert_eq!(image.len(), 1024);
    assert_eq!(image[0], 1);
    assert!(image[1..512].iter().all(|&b| b == 2));
    assert!(image[512..].iter().all(|&b| b == 1));
}

#[test]
fn extract_disk_of_no_entries_is_empty() {
    assert_eq!(extract_disk(&[], 0, 0, &vec![]), Ok(vec![]));
}

#[test]
fn extract_disk_fails_with_its_first_bad_block() {
    let mem = vec![0u8; 1024];
    let entries = vec![BlockEntry { mode: 0, offset: 0 }, BlockEntry { mode: 0, offset: 600 }];
    assert_eq!(extract_disk(&mem, 0, 0, &entries), Err(ExtractError::OutOfBounds));
}

#[test]
fn try_extract_skips_what_is_no_container() {
    let mem = vec![0x45u8; 4096];
    assert_eq!(try_extract(&mem, 0), Ok(None));
    assert_eq!(try_extract(&mem, 3584), Ok(None));
}

#[test]
fn try_extract_one_block_disk() {
    let mem = container(512, &[0x0000_0000], &[]);
    assert_eq!(try_extract(&mem, 0), Ok(Some(vec![0u8; 512])));
    let mut data = vec![0u8; 8];
    data.extend((0..512u32).map(|i| (i * 7) as u8));
    let mem = container(512, &[0x0000_0008], &data);
    let expected: Vec<u8> = (0..512u32).map(|i| ((i * 7) as u8).wrapping_neg()).collect();
    assert_eq!(try_extract(&mem, 0), Ok(Some(expected)));
}

#[test]
fn try_extract_empty_disk() {
    let mem = container(0, &[], &[]);
    assert_eq!(try_extract(&mem, 0), Ok(Some(vec![])));
}

#[test]
fn try_extract_two_block_disk_end_to_end() {
    let mut data = vec![0x00, 0xaa, 0x01, 0xbb, 0xcc, 0x80];
    data.extend_from_slice(&[0xfe, 0xbb]);
    data.extend_from_slice(&[0x81, 0x10]);
    data.extend_from_slice(&[0x81, 0x20]);
    data.extend_from_slice(&[0x81, 0x30]);
    data.extend_from_slice(&[0x87, 0x40]);
    data.extend_from_slice(&[0x80, 0x80]);
    let mem = container(1024, &[0x0000_0000, 0x0100_0000], &data);
    let image = try_extract(&mem, 0).unwrap().unwrap();
    assert_eq!(image.len(), 1024);
    assert!(image[..512].iter().all(|&b| b == 0));
    assert_eq!(&image[512..518], &[0xaa, 0xbb, 0xcc, 0xbb, 0xbb, 0xbb]);
    assert!(image[518..646].iter().all(|&b| b == 0x10));
    assert!(image[646..774].iter().all(|&b| b == 0x20));
    assert!(image[774..902].iter().all(|&b| b == 0x30));
    assert!(image[902..1024].iter().all(|&b| b == 0x40));
}

#[test]
fn try_extract_at_a_later_location() {
    let inner = container(512, &[0x00ff_f800], &[]);
    let mut mem = vec![0x03u8; 0x1_0000];
    mem.extend(inner);
    let expected = vec![0xfdu8; 512];
    assert_eq!(try_extract(&mem, 0x1_0000), Ok(Some(expected)));
    assert_eq!(try_extract(&mem, 0), Ok(None));
}

#[test]
fn try_extract_reports_header_faults() {
    let mut mem = container(512, &[0], &[]);
    put_word(&mut mem, 130, 2);
    assert_eq!(try_extract(&mem, 0), Err(ExtractError::UnsupportedFormat));
    let mut mem = container(512, &[0], &[]);
    put_word(&mut mem, 128, 1024);
    assert_eq!(try_extract(&mem, 0), Err(ExtractError::UnsupportedFormat));
    let mut mem = container(512, &[0], &[]);
    put_long(&mut mem, 144, 700);
    assert_eq!(try_extract(&mem, 0), Err(ExtractError::MalformedLength));
}

#[test]
fn try_extract_reports_table_faults() {
    let mem = container(1024, &[0x0000_0000, 0x0300_0000], &[]);
    assert_eq!(try_extract(&mem, 0), Err(ExtractError::UnsupportedBlockMode));
    let mem = container(1024, &[0x0000_0000], &[]);
    assert_eq!(try_extract(&mem, 0), Err(ExtractError::OutOfBounds));
    let mem = container(1024, &[0x0100_0000, 0x0500_0000], &[]);
    assert_eq!(try_extract(&mem, 0), Err(ExtractError::UnsupportedBlockMode));
}

#[test]
fn try_extract_reports_block_faults() {
    let mem = container(512, &[0x0000_0001], &[0u8; 512]);
    assert_eq!(try_extract(&mem, 0), Err(ExtractError::OutOfBounds));
    let mem = container(512, &[0x0100_0000], &[0x7f, 1, 2, 3]);
    assert_eq!(try_extract(&mem, 0), Err(ExtractError::OutOfBounds));
    let mem = container(512, &[0x0200_0000], &[0u8; 20]);
    assert_eq!(try_extract(&mem, 0), Err(ExtractError::OutOfBounds));
    let mem = container(512, &[0x0080_0000], &[0u8; 600]);
    assert_eq!(try_extract(&mem, 0), Err(ExtractError::OutOfBounds));
}
