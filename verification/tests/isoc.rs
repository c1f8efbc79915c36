use nect_rs::isoc::{
    iso_packet_size, packets_to_deliver, transfer_offsets, CallbackAction, StreamState, NUM_XFERS, PKTS_PER_XFER,
    VIDEO_PKTBUF,
};

#[test]
fn completed_transfer_delivers_packets() {
    let mut s = StreamState::new(4, 100);
    assert_eq!(s.on_completion(true), CallbackAction::Deliver);
    assert_eq!(s.dead_xfers, 0);
    assert!(s.should_resubmit());
    s.resubmitted(0);
    assert_eq!(s.dead_xfers, 0);
    s.resubmitted(-4);
    assert_eq!(s.dead_xfers, 1);
}

#[test]
fn dead_stream_retires_transfers() {
    let mut s = StreamState::new(4, 100);
    assert_eq!(s.on_completion(false), CallbackAction::Retire);
    assert_eq!(s.dead_xfers, 1);
    s.mark_dead();
    assert_eq!(s.on_completion(true), CallbackAction::Retire);
    assert_eq!(s.dead_xfers, 2);
    assert!(!s.should_resubmit());
    assert_eq!(s.dead_xfers, 3);
    s.submitted(-1);
    s.submitted(0);
    assert_eq!(s.dead_xfers, 4);
    assert!(s.keep_waiting(15, 0));
    assert!(!s.keep_waiting(4, 0));
    assert!(!s.keep_waiting(15, 101));
    assert!(s.keep_waiting(15, 100));
}

#[test]
fn delivered_packets() {
    let actual = [10usize, 0, 100, 60, 5];
    let r = packets_to_deliver(&actual, 100, 400);
    // Packet 1 is empty; packet 3 would run past the buffer... it does not:
    // 300 + 60 <= 400. Packet 4 starts past the end.
    assert_eq!(r, vec![(0, 10), (200, 100), (300, 60)]);
    let r = packets_to_deliver(&actual, 100, 350);
    assert_eq!(r, vec![(0, 10), (200, 100)]);
    assert!(packets_to_deliver(&[], 100, 400).is_empty());
}

#[test]
fn packet_sizes_and_offsets() {
    assert_eq!(iso_packet_size(1024, VIDEO_PKTBUF), 1024);
    assert_eq!(iso_packet_size(0, VIDEO_PKTBUF), 1920);
    assert_eq!(iso_packet_size(-5, 1760), 1760);
    let offs = transfer_offsets(NUM_XFERS, PKTS_PER_XFER, 1920);
    assert_eq!(offs.len(), 15);
    assert_eq!(offs[0], 0);
    assert_eq!(offs[1], 16 * 1920);
    assert_eq!(offs[14], 14 * 16 * 1920);
}
