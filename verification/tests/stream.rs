use nect_rs::stream::{PacketHeader, PacketStream};
use nect_rs::stream_bridge::FrameState;

fn make_packet(seq: u8, flag: u8, payload: &[u8]) -> Vec<u8> {
    let mut pkt = Vec::with_capacity(12 + payload.len());
    pkt.push(b'R');
    pkt.push(b'B');
    pkt.push(0); // pad
    pkt.push(flag);
    pkt.push(0); // unk1
    pkt.push(seq);
    pkt.push(0); // unk2
    pkt.push(0); // unk3
    pkt.extend_from_slice(&0u32.to_le_bytes()); // timestamp
    pkt.extend_from_slice(payload);
    pkt
}

fn make_stamped(seq: u8, flag: u8, ts: u32, payload: &[u8]) -> Vec<u8> {
    let mut pkt = make_packet(seq, flag, payload);
    pkt[8..12].copy_from_slice(&ts.to_le_bytes());
    pkt
}

#[test]
fn test_stream_sync_and_frame() {
    let mut stream = PacketStream::new(0x70, 10, 30); // 3 packets per frame
    // SOF
    let r = stream.process_packet(&make_packet(0, 0x71, &[1, 2, 3, 4, 5, 6, 7, 8, 9, 10]));
    assert!(r.is_none());
    // MOF
    let r = stream.process_packet(&make_packet(1, 0x72, &[11, 12, 13, 14, 15, 16, 17, 18, 19, 20]));
    assert!(r.is_none());
    // EOF
    let r = stream.process_packet(&make_packet(2, 0x75, &[21, 22, 23, 24, 25, 26, 27, 28, 29, 30]));
    assert_eq!(r, Some(30));
    assert_eq!(
        &stream.raw_buf[..30],
        &[
            1, 2, 3, 4, 5, 6, 7, 8, 9, 10, 11, 12, 13, 14, 15, 16, 17, 18, 19, 20, 21, 22, 23, 24, 25, 26, 27, 28,
            29, 30
        ]
    );
}

#[test]
fn test_invalid_magic_drops_packet() {
    let mut stream = PacketStream::new(0x70, 10, 30);
    let mut pkt = make_packet(0, 0x71, &[1; 10]);
    pkt[0] = b'X';
    let r = stream.process_packet(&pkt);
    assert!(r.is_none());
    assert!(!stream.synced);
}

#[test]
fn test_lost_packet_recovery() {
    let mut stream = PacketStream::new(0x70, 10, 30);
    // SOF
    stream.process_packet(&make_packet(0, 0x71, &[1; 10]));
    // Skip seq 1 (lost), next is seq 2 with EOF
    let r = stream.process_packet(&make_packet(2, 0x75, &[3; 10]));
    // Should return a frame because loss crossed frame boundary
    assert!(r.is_some());
}

#[test]
fn packet_header_fields() {
    let pkt = make_stamped(7, 0x81, 0x0102_0304, &[]);
    let hdr = PacketHeader::from_bytes(&pkt).unwrap();
    assert!(hdr.is_valid_magic());
    assert_eq!(hdr.seq, 7);
    assert_eq!(hdr.timestamp, 0x0102_0304);
    assert!(hdr.is_sof(0x80));
    assert!(!hdr.is_mof(0x80));
    assert!(!hdr.is_eof(0x80));
    assert!(PacketHeader::from_bytes(&pkt[..11]).is_none());
}

#[test]
fn new_stream_layout() {
    let s = PacketStream::new(0x80, 1908, 10);
    assert_eq!(s.pkts_per_frame, 1);
    assert_eq!(s.last_pkt_size, 10);
    let s = PacketStream::new(0x70, 10, 25);
    assert_eq!(s.pkts_per_frame, 3);
    assert_eq!(s.last_pkt_size, 5);
    assert_eq!(s.raw_buf.len(), 25);
    let s = PacketStream::new(0x70, 10, 30);
    assert_eq!(s.last_pkt_size, 10);
}

#[test]
fn unsynced_stream_waits_for_start() {
    let mut stream = PacketStream::new(0x70, 10, 30);
    assert!(stream.process_packet(&make_packet(1, 0x72, &[9; 10])).is_none());
    assert!(stream.process_packet(&make_packet(2, 0x75, &[9; 10])).is_none());
    assert!(!stream.synced);
    // A start of frame of the other stream does not sync either.
    assert!(stream.process_packet(&make_packet(0, 0x81, &[9; 10])).is_none());
    assert!(!stream.synced);
    assert!(stream.process_packet(&make_packet(0, 0x71, &[9; 10])).is_none());
    assert!(stream.synced);
    assert_eq!(stream.seq, 1);
}

#[test]
fn short_packet_is_dropped() {
    let mut stream = PacketStream::new(0x70, 10, 30);
    let pkt = make_packet(0, 0x71, &[]);
    assert!(stream.process_packet(&pkt[..11]).is_none());
    assert!(!stream.synced);
}

#[test]
fn frames_in_a_row_and_timestamps() {
    let mut stream = PacketStream::new(0x70, 4, 8);
    assert!(stream.process_packet(&make_stamped(0, 0x71, 100, &[1, 2, 3, 4])).is_none());
    assert_eq!(stream.process_packet(&make_stamped(1, 0x75, 101, &[5, 6, 7, 8])), Some(8));
    assert_eq!(stream.timestamp, 101);
    assert_eq!(stream.valid_frames, 1);
    assert!(stream.process_packet(&make_stamped(2, 0x71, 200, &[9, 9, 9, 9])).is_none());
    assert_eq!(stream.process_packet(&make_stamped(3, 0x75, 201, &[8, 8, 8, 8])), Some(8));
    assert_eq!(&stream.raw_buf[..], &[9, 9, 9, 9, 8, 8, 8, 8]);
    assert_eq!(stream.valid_frames, 2);
    assert_eq!(stream.timestamp, 201);
}

#[test]
fn large_loss_drops_sync() {
    let mut stream = PacketStream::new(0x70, 10, 30);
    stream.process_packet(&make_packet(0, 0x71, &[1; 10]));
    let r = stream.process_packet(&make_packet(10, 0x72, &[2; 10]));
    assert!(r.is_none());
    assert!(!stream.synced);
    assert_eq!(stream.lost_pkts, 9);
}

#[test]
fn wrong_flag_drops_sync() {
    let mut stream = PacketStream::new(0x70, 10, 30);
    stream.process_packet(&make_packet(0, 0x71, &[1; 10]));
    // The second packet of three must be a middle packet.
    assert!(stream.process_packet(&make_packet(1, 0x75, &[2; 10])).is_none());
    assert!(!stream.synced);
}

#[test]
fn oversized_middle_packet_is_skipped() {
    let mut stream = PacketStream::new(0x70, 10, 30);
    stream.process_packet(&make_packet(0, 0x71, &[1; 10]));
    assert!(stream.process_packet(&make_packet(1, 0x72, &[2; 11])).is_none());
    assert!(stream.synced);
    assert_eq!(stream.pkt_num, 1);
}

#[test]
fn frame_state_delivers_frames() {
    let mut fs = FrameState::new(0x70, 10, 20);
    let (alive, frame) = fs.process_packet(&make_stamped(0, 0x71, 5, &[1; 10]));
    assert!(alive);
    assert_eq!(frame, None);
    let (alive, frame) = fs.process_packet(&make_stamped(1, 0x75, 6, &[2; 10]));
    assert!(alive);
    assert_eq!(frame, Some(20));
    assert_eq!(fs.packet_stream.timestamp, 6);
    assert_eq!(&fs.packet_stream.raw_buf[..20], &[1, 1, 1, 1, 1, 1, 1, 1, 1, 1, 2, 2, 2, 2, 2, 2, 2, 2, 2, 2]);
    fs.dead = true;
    let (alive, _) = fs.process_packet(&make_packet(2, 0x71, &[3; 10]));
    assert!(!alive);
}

#[test]
fn zero_size_frame_state_drops_bad_packets() {
    let mut fs = FrameState::new(0x70, 10, 0);
    assert!(!fs.has_frame_shape());
    let mut bad = make_packet(0, 0x71, &[1; 10]);
    bad[1] = b'X';
    assert_eq!(fs.process_packet(&bad), (true, None));
    assert!(!fs.packet_stream.synced);
    assert!(FrameState::new(0x70, 10, 30).has_frame_shape());
}

#[test]
fn fixed_frames_report_the_frame_size() {
    // A loss that crosses the end of a frame reports the whole frame.
    let mut stream = PacketStream::new(0x80, 10, 30);
    stream.process_packet(&make_packet(0, 0x81, &[1; 10]));
    stream.process_packet(&make_packet(1, 0x82, &[2; 10]));
    let r = stream.process_packet(&make_packet(4, 0x82, &[3; 10]));
    assert_eq!(r, Some(30));
    assert_eq!(stream.lost_pkts, 2);
    assert_eq!(stream.valid_frames, 1);
    assert!(stream.pkt_num < stream.pkts_per_frame);
}
