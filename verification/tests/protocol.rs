use nect_rs::protocol::{
    assemble_cmd_packet, read_cmos_cmd, read_register_cmd, write_cmos_cmd, write_register_cmd, CamCmdHeader,
    CamReplyHeader,
};

#[test]
fn test_cam_cmd_header_roundtrip() {
    let hdr = CamCmdHeader::new(0x03, 42, 4);
    let bytes = hdr.to_bytes();
    let hdr2 = CamCmdHeader::from_bytes(&bytes).unwrap();
    assert_eq!(hdr2.magic, [0x47, 0x4d]);
    assert_eq!(hdr2.cmd, 0x03);
    assert_eq!(hdr2.tag, 42);
    assert_eq!(hdr2.len, 2);
}

#[test]
fn test_read_register_cmd() {
    let cmd = read_register_cmd(0x0015);
    assert_eq!(cmd, [0x15, 0x00]);
}

#[test]
fn test_write_register_cmd() {
    let cmd = write_register_cmd(0x0015, 0x0007);
    assert_eq!(cmd, [0x15, 0x00, 0x07, 0x00]);
}

#[test]
fn test_cmos_cmd_builders() {
    let read = read_cmos_cmd(0x0106);
    assert_eq!(read[0..2], [0x01, 0x00]); // 1
    assert_eq!(read[2..4], [0x06, 0x01]); // 0x0106 & 0x7fff = 0x0106
    assert_eq!(read[4..6], [0x00, 0x00]); // 0

    let write = write_cmos_cmd(0x0106, 0x1234);
    assert_eq!(write[2..4], [0x06, 0x81]); // 0x0106 | 0x8000 = 0x8106 (LE)
    assert_eq!(write[4..6], [0x34, 0x12]);
}

#[test]
fn test_assemble_cmd_packet() {
    let payload = write_register_cmd(0x0015, 0x0007);
    let pkt = assemble_cmd_packet(0x03, 1, &payload);
    assert_eq!(pkt.len(), 12);
    assert_eq!(pkt[0..2], [0x47, 0x4d]);
    assert_eq!(pkt[4..6], [0x03, 0x00]); // cmd
}

#[test]
fn cmd_packet_reads_back() {
    let payload = [1u8, 2, 3, 4, 5, 6];
    let pkt = assemble_cmd_packet(0x95, 0x1234, &payload);
    let hdr = CamCmdHeader::from_bytes(&pkt).unwrap();
    assert_eq!(hdr.magic, [0x47, 0x4d]);
    assert_eq!(hdr.len, 3);
    assert_eq!(hdr.cmd, 0x95);
    assert_eq!(hdr.tag, 0x1234);
    assert_eq!(&pkt[8..], &payload);
}

#[test]
fn cmos_address_bit() {
    // The top bit of the address is cleared for reads and set for writes.
    let read = read_cmos_cmd(0x8106);
    assert_eq!(read[2..4], [0x06, 0x01]);
    let write = write_cmos_cmd(0x0006, 0);
    assert_eq!(write[2..4], [0x06, 0x80]);
}

#[test]
fn reply_header_checks() {
    let reply = [0x52, 0x42, 0x01, 0x00, 0x03, 0x00, 0x07, 0x00];
    let hdr = CamReplyHeader::from_bytes(&reply).unwrap();
    assert_eq!(hdr.len, 1);
    assert!(hdr.is_valid(0x03, 7));
    assert!(!hdr.is_valid(0x02, 7));
    assert!(!hdr.is_valid(0x03, 8));
    let bad = [0x52, 0x52, 0x01, 0x00, 0x03, 0x00, 0x07, 0x00];
    assert!(!CamReplyHeader::from_bytes(&bad).unwrap().is_valid(0x03, 7));
    assert!(CamReplyHeader::from_bytes(&reply[..7]).is_none());
    assert!(CamCmdHeader::from_bytes(&reply[..7]).is_none());
}
