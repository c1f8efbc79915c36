use nect_rs::camera_usb::{
    check_sent, depth_stream_plan, led_request, parse_read_cmos_reply, parse_read_register_reply,
    parse_tilt_state, parse_write_register_reply, poll_reply, read_cmos_packet, read_register_packet,
    stop_depth_writes, stop_video_writes, tilt_request, tilt_state_request, video_stream_plan, write_cmos_packet,
    write_register_packet, ReplyPoll,
};
use nect_rs::protocol;
use nect_rs::{DepthFormat, Error, Resolution, TiltStatus, VideoFormat};

fn usb_message(e: Error) -> String {
    match e {
        Error::Usb(m) => m,
        other => panic!("not a USB error: {:?}", other),
    }
}

#[test]
fn test_send_cmd_payload_roundtrip() {
    let addr = 0x0012u16;
    let value = 0x0003u16;
    let payload = protocol::write_register_cmd(addr, value);
    let cmd = protocol::assemble_cmd_packet(0x03, 1, &payload);

    assert_eq!(cmd.len(), 12);
    assert_eq!(cmd[0..2], [0x47, 0x4d]); // magic
    assert_eq!(cmd[4..6], [0x03, 0x00]); // cmd
    assert_eq!(cmd[8..10], [0x12, 0x00]); // addr
    assert_eq!(cmd[10..12], [0x03, 0x00]); // value
}

#[test]
fn register_packets() {
    assert_eq!(read_register_packet(0x0015), vec![0x47, 0x4d, 1, 0, 2, 0, 1, 0, 0x15, 0]);
    assert_eq!(write_register_packet(0x0012, 3), vec![0x47, 0x4d, 2, 0, 3, 0, 1, 0, 0x12, 0, 3, 0]);
    assert_eq!(
        read_cmos_packet(0x8009),
        vec![0x47, 0x4d, 3, 0, 0x95, 0, 1, 0, 1, 0, 0x09, 0x00, 0, 0]
    );
    assert_eq!(
        write_cmos_packet(0x0009, 0x0102),
        vec![0x47, 0x4d, 3, 0, 0x95, 0, 1, 0, 1, 0, 0x09, 0x80, 0x02, 0x01]
    );
}

#[test]
fn send_results() {
    assert!(check_sent(12, 12).is_ok());
    assert_eq!(usb_message(check_sent(-4, 12).unwrap_err()), "send_cmd failed: -4");
    assert_eq!(usb_message(check_sent(8, 12).unwrap_err()), "send_cmd: wrote 8 of 12 bytes");
    assert_eq!(usb_message(check_sent(i32::MIN, 1).unwrap_err()), "send_cmd failed: -2147483648");
}

#[test]
fn reply_polling() {
    assert!(matches!(poll_reply(10, 0), ReplyPoll::Done(10)));
    assert!(matches!(poll_reply(0, 0), ReplyPoll::Retry(1)));
    assert!(matches!(poll_reply(-7, 5), ReplyPoll::Retry(6)));
    assert!(matches!(poll_reply(512, 99), ReplyPoll::Retry(100)));
    match poll_reply(0, 100) {
        ReplyPoll::Failed(e) => assert_eq!(usb_message(e), "read_reply: timeout waiting for camera reply"),
        _ => panic!("expected a failure"),
    }
    match poll_reply(-1, 0) {
        ReplyPoll::Failed(e) => assert_eq!(usb_message(e), "read_reply control read failed: -1"),
        _ => panic!("expected a failure"),
    }
}

#[test]
fn register_read_replies() {
    let mut ack = vec![0x52, 0x42, 1, 0, 2, 0, 1, 0, 0x34, 0x12];
    assert_eq!(parse_read_register_reply(&ack), Ok(0x1234));
    ack.truncate(9);
    assert_eq!(parse_read_register_reply(&ack), Ok(0));
    assert_eq!(usb_message(parse_read_register_reply(&[0x52]).unwrap_err()), "read_register: short reply");
    assert_eq!(usb_message(parse_read_register_reply(&[0x52, 0x52, 0]).unwrap_err()), "read_register: NACK");
    assert_eq!(
        usb_message(parse_read_register_reply(&[0x52, 0x53]).unwrap_err()),
        "read_register: NACK+bad addr"
    );
    assert_eq!(
        usb_message(parse_read_register_reply(&[0x47, 0x4d, 0x0a, 0xff, 0x00]).unwrap_err()),
        "read_register: unknown reply magic [47, 4d, 0a, ff]"
    );
    assert_eq!(
        usb_message(parse_read_register_reply(&[0x00, 0x01]).unwrap_err()),
        "read_register: unknown reply magic [00, 01]"
    );
}

#[test]
fn register_write_replies() {
    assert_eq!(parse_write_register_reply(&[0x52, 0x42]), Ok(()));
    assert_eq!(usb_message(parse_write_register_reply(&[]).unwrap_err()), "write_register: short reply");
    assert_eq!(usb_message(parse_write_register_reply(&[0x52, 0x52]).unwrap_err()), "write_register: NACK");
    assert_eq!(
        usb_message(parse_write_register_reply(&[0x52, 0x53]).unwrap_err()),
        "write_register: NACK+bad addr"
    );
    assert_eq!(
        usb_message(parse_write_register_reply(&[0x42, 0x52, 7]).unwrap_err()),
        "write_register: unknown reply magic [42, 52, 07]"
    );
}

#[test]
fn cmos_read_replies() {
    let mut reply = vec![0u8; 14];
    reply[0] = 0x52;
    reply[1] = 0x42;
    reply[12] = 0xcd;
    reply[13] = 0xab;
    assert_eq!(parse_read_cmos_reply(&reply), Ok(0xabcd));
    assert_eq!(usb_message(parse_read_cmos_reply(&reply[..13]).unwrap_err()), "read_cmos_register: short reply");
    reply[1] = 0x52;
    assert_eq!(
        usb_message(parse_read_cmos_reply(&reply).unwrap_err()),
        "read_cmos_register: unknown reply magic [52, 52, 00, 00]"
    );
}

#[test]
fn depth_stream_plans() {
    let p = depth_stream_plan(DepthFormat::Bit11);
    assert_eq!(
        p.writes,
        vec![(0x105, 0), (0x06, 0), (0x12, 3), (0x13, 1), (0x14, 0x1e), (0x06, 2), (0x17, 0)]
    );
    assert_eq!(p.outcome, Ok(()));
    let p = depth_stream_plan(DepthFormat::Bit10Packed);
    assert_eq!(p.writes[2], (0x12, 2));
    let p = depth_stream_plan(DepthFormat::Mm);
    assert_eq!(p.writes, vec![(0x105, 0), (0x06, 0)]);
    assert_eq!(p.outcome, Err(Error::InvalidMode));
    assert_eq!(stop_depth_writes(), vec![(0x06, 0)]);
}

#[test]
fn video_stream_plans() {
    let p = video_stream_plan(VideoFormat::Rgb, Resolution::Medium);
    assert_eq!(p.writes, vec![(0x0c, 0), (0x0d, 1), (0x0e, 0x1e), (0x47, 0)]);
    assert_eq!(p.outcome, Ok(()));
    let p = video_stream_plan(VideoFormat::Bayer, Resolution::High);
    assert_eq!(p.writes, vec![(0x0c, 0), (0x0d, 2), (0x0e, 0x0f), (0x47, 0)]);
    let p = video_stream_plan(VideoFormat::Ir10Bit, Resolution::High);
    assert_eq!(
        p.writes,
        vec![(0x13, 1), (0x14, 0x1e), (0x06, 2), (0x06, 0), (0x19, 0), (0x1a, 2), (0x1b, 0x0f), (0x48, 0)]
    );
    let p = video_stream_plan(VideoFormat::Ir8Bit, Resolution::Medium);
    assert_eq!(p.writes, vec![(0x19, 0), (0x1a, 1), (0x1b, 0x1e), (0x48, 0)]);
    let p = video_stream_plan(VideoFormat::YuvRgb, Resolution::Medium);
    assert_eq!(p.writes, vec![(0x0c, 5), (0x0d, 1), (0x0e, 0x0f), (0x47, 0)]);
    for (f, r) in [
        (VideoFormat::YuvRaw, Resolution::High),
        (VideoFormat::Rgb, Resolution::Low),
        (VideoFormat::Ir8Bit, Resolution::Low),
    ] {
        let p = video_stream_plan(f, r);
        assert!(p.writes.is_empty());
        assert_eq!(p.outcome, Err(Error::InvalidMode));
    }
    assert_eq!(stop_video_writes(), vec![(0x0c, 0), (0x06, 0)]);
}

#[test]
fn motor_requests() {
    let led = led_request(6);
    assert_eq!((led.request_type, led.request, led.value, led.index), (0x40, 0x06, 6, 0));
    assert_eq!(led.data, vec![6]);
    let tilt = tilt_request(-10);
    assert_eq!((tilt.request_type, tilt.request, tilt.value, tilt.index), (0x40, 0x31, 0xfff6, 0));
    assert_eq!(tilt.data, vec![0xf6]);
    let tilt = tilt_request(30);
    assert_eq!(tilt.value, 30);
    assert_eq!(tilt.data, vec![30]);
    assert_eq!(tilt_state_request(), (0xC0, 0x32, 0, 0));
}

#[test]
fn tilt_state_from_reading() {
    let buf = [0u8, 0, 0x01, 0x02, 0xff, 0xfe, 0x80, 0x00, 0xf0, 4];
    let t = parse_tilt_state(&buf);
    assert_eq!(t.accelerometer_x(), 0x0102);
    assert_eq!(t.accelerometer_y(), -2);
    assert_eq!(t.accelerometer_z(), i16::MIN);
    assert_eq!(t.tilt_angle(), -16);
    assert_eq!(t.tilt_status(), TiltStatus::Moving);
    let mut other = buf;
    other[9] = 1;
    assert_eq!(parse_tilt_state(&other).tilt_status, TiltStatus::Limit);
    other[9] = 9;
    assert_eq!(parse_tilt_state(&other).tilt_status, TiltStatus::Stopped);
    other[9] = 0;
    other[8] = 0x7f;
    assert_eq!(parse_tilt_state(&other).tilt_status, TiltStatus::Stopped);
    assert_eq!(parse_tilt_state(&other).tilt_angle, 127);
}
