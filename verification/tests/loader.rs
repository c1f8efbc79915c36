use nect_rs::loader::{
    firmware_page_splits, parse_firmware, BootloaderCommand, BootloaderStatus, CemdLoaderCommand, FirmwareHeader,
};

#[test]
fn test_firmware_header_parse() {
    let mut buf = vec![0u8; 24];
    buf[0..4].copy_from_slice(&0xCA77F00Du32.to_le_bytes());
    buf[4..6].copy_from_slice(&0x0001u16.to_le_bytes()); // minor
    buf[6..8].copy_from_slice(&0x0002u16.to_le_bytes()); // major
    buf[12..16].copy_from_slice(&0x00080000u32.to_le_bytes()); // base_addr
    buf[16..20].copy_from_slice(&0x00010000u32.to_le_bytes()); // size

    let hdr = FirmwareHeader::from_bytes(&buf).unwrap();
    assert!(hdr.is_valid());
    assert_eq!(hdr.magic, 0xCA77F00D);
    assert_eq!(hdr.base_addr, 0x80000);
    assert_eq!(hdr.size, 0x10000);
}

#[test]
fn test_bootloader_command_serialize() {
    let cmd = BootloaderCommand::write_page(7, 0x4000, 0x80000);
    let bytes = cmd.to_bytes();
    assert_eq!(u32::from_le_bytes([bytes[0], bytes[1], bytes[2], bytes[3]]), 0x06022009);
    assert_eq!(u32::from_le_bytes([bytes[4], bytes[5], bytes[6], bytes[7]]), 7);
    assert_eq!(u32::from_le_bytes([bytes[12], bytes[13], bytes[14], bytes[15]]), 0x03);
}

#[test]
fn test_bootloader_status_parse() {
    let mut buf = vec![0u8; 12];
    buf[0..4].copy_from_slice(&0x0A6FE000u32.to_le_bytes());
    buf[4..8].copy_from_slice(&42u32.to_le_bytes());
    let st = BootloaderStatus::from_bytes(&buf).unwrap();
    assert!(st.is_valid(42));
    assert!(!st.is_valid(43));
}

#[test]
fn test_firmware_page_splits() {
    let data = vec![0u8; 0x8001]; // 2 pages + 1 byte
    let pages = firmware_page_splits(0x80000, 0x8001, &data);
    assert_eq!(pages.len(), 3);
    assert_eq!(pages[0].0, 0x80000);
    assert_eq!(pages[0].1.len(), 0x4000);
    assert_eq!(pages[1].0, 0x84000);
    assert_eq!(pages[1].1.len(), 0x4000);
    assert_eq!(pages[2].0, 0x88000);
    assert_eq!(pages[2].1.len(), 1);
}

#[test]
fn test_parse_firmware() {
    let mut data = vec![0u8; 28];
    data[0..4].copy_from_slice(&0xCA77F00Du32.to_le_bytes());
    data[16..20].copy_from_slice(&4u32.to_le_bytes()); // size = 4
    let (hdr, rest) = parse_firmware(&data).unwrap();
    assert_eq!(hdr.size, 4);
    assert_eq!(rest.len(), 4);
}

#[test]
fn firmware_header_version_string() {
    let mut buf = vec![0u8; 24];
    buf[4..6].copy_from_slice(&3u16.to_le_bytes()); // minor
    buf[6..8].copy_from_slice(&1u16.to_le_bytes()); // major
    buf[8..10].copy_from_slice(&12u16.to_le_bytes()); // release
    buf[10..12].copy_from_slice(&345u16.to_le_bytes()); // patch
    let hdr = FirmwareHeader::from_bytes(&buf).unwrap();
    assert_eq!(hdr.version_string(), "01.03.12.345");
    assert!(!hdr.is_valid());
}

#[test]
fn firmware_header_needs_24_bytes() {
    assert!(FirmwareHeader::from_bytes(&[0u8; 23]).is_none());
    assert!(BootloaderStatus::from_bytes(&[0u8; 11]).is_none());
}

#[test]
fn parse_firmware_refusals() {
    // Unknown magic.
    let data = vec![0u8; 28];
    assert!(parse_firmware(&data).is_none());
    // Image shorter than its header says.
    let mut data = vec![0u8; 27];
    data[0..4].copy_from_slice(&0xF00BACCAu32.to_le_bytes());
    data[16..20].copy_from_slice(&4u32.to_le_bytes());
    assert!(parse_firmware(&data).is_none());
    // Too short for a header.
    assert!(parse_firmware(&[0u8; 10]).is_none());
}

#[test]
fn page_splits_stop_at_the_data() {
    let data: Vec<u8> = (0..10u8).collect();
    let pages = firmware_page_splits(0x100, 0x8000, &data);
    assert_eq!(pages.len(), 1);
    assert_eq!(pages[0].0, 0x100);
    assert_eq!(pages[0].1, &data[..]);
    let none = firmware_page_splits(0x100, 0, &data);
    assert!(none.is_empty());
}

#[test]
fn page_splits_cover_the_image_in_order() {
    let data: Vec<u8> = (0..0x9000u32).map(|i| (i % 251) as u8).collect();
    let pages = firmware_page_splits(0x1000, 0x8800, &data);
    let mut joined: Vec<u8> = Vec::new();
    for (i, (addr, page)) in pages.iter().enumerate() {
        assert_eq!(*addr, 0x1000 + (i as u32) * 0x4000);
        assert!(!page.is_empty() && page.len() <= 0x4000);
        joined.extend_from_slice(page);
    }
    assert_eq!(&joined[..], &data[..0x8800]);
}

#[test]
fn bootloader_commands_serialize() {
    let jump = BootloaderCommand::jump(9, 0x8_0000).to_bytes();
    assert_eq!(&jump[12..16], &4u32.to_le_bytes());
    assert_eq!(&jump[16..20], &0x8_0000u32.to_le_bytes());
    let ver = BootloaderCommand::get_version(1).to_bytes();
    assert_eq!(&ver[8..12], &0x60u32.to_le_bytes());
    assert_eq!(&ver[16..20], &0x15u32.to_le_bytes());
    assert_eq!(&ver[20..24], &[0, 0, 0, 0]);
}

#[test]
fn cemd_commands_serialize() {
    let start = CemdLoaderCommand::start_upload(5).to_bytes();
    assert_eq!(&start[0..4], &0x06022009u32.to_le_bytes());
    assert_eq!(&start[4..8], &5u32.to_le_bytes());
    assert_eq!(&start[12..16], &0x133u32.to_le_bytes());
    assert_eq!(&start[16..20], &0x00064014u32.to_le_bytes());
    assert!(start[20..52].iter().all(|&b| b == 0));
    let block = CemdLoaderCommand::data_block(6, 0x200, 0x1234).to_bytes();
    assert_eq!(&block[8..12], &0x200u32.to_le_bytes());
    assert_eq!(&block[12..16], &0x134u32.to_le_bytes());
    assert_eq!(&block[16..20], &0x1234u32.to_le_bytes());
    let finish = CemdLoaderCommand::finish(7).to_bytes();
    assert_eq!(&finish[12..16], &0x135u32.to_le_bytes());
    assert_eq!(&finish[16..20], &0x00064000u32.to_le_bytes());
}
