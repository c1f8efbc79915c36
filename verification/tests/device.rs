use nect_rs::device_core::{
    conversion_sizes_fit_check,
    video_sizes_fit_check, process_video_frame, ContextCore, DeviceState, VideoFrame, DEPTH_WIRE_FRAME_SIZE,
};
use nect_rs::usb::{UsbDeviceInfo, DeviceDescriptor, PID_NUI_CAMERA, VID_MICROSOFT};
use nect_rs::{Context, Device, DeviceFlags, Error, LedOption, LogLevel, Resolution, VideoFormat};

fn usb_error_text<T>(r: Result<T, Error>) -> String {
    match r {
        Err(Error::Usb(m)) => m,
        Err(e) => panic!("not a USB error: {:?}", e),
        Ok(_) => panic!("expected an error"),
    }
}

#[test]
fn context_defaults_and_settings() {
    let mut ctx = Context::new();
    assert_eq!(ctx.core.log_level(), LogLevel::Notice);
    assert_eq!(ctx.core.enabled_subdevices(), DeviceFlags(3));
    assert!(ctx.core.logs(LogLevel::Error));
    assert!(ctx.core.logs(LogLevel::Notice));
    assert!(!ctx.core.logs(LogLevel::Info));
    ctx.set_log_level(LogLevel::Spew);
    assert!(ctx.core.logs(LogLevel::Spew));
    ctx.select_subdevices(DeviceFlags(0xff));
    assert_eq!(ctx.core.enabled_subdevices(), DeviceFlags(7));
    ctx.select_subdevices(DeviceFlags::audio());
    assert_eq!(ctx.core.enabled_subdevices(), DeviceFlags(4));
    let cam = UsbDeviceInfo {
        descriptor: Some(DeviceDescriptor { vendor_id: VID_MICROSOFT, product_id: PID_NUI_CAMERA, serial_number_string_index: None }),
        bus_number: 1,
        port_number: 1,
    };
    assert_eq!(ctx.num_devices(&[cam, cam]), 2);
}

#[test]
fn open_and_close_devices() {
    let mut ctx = Context::new();
    let a = ctx.open_device(true);
    let b = ctx.open_device(false);
    assert_eq!((a.handle, b.handle), (0, 1));
    assert_eq!(ctx.open_count, 2);
    assert!(!ctx.can_close());
    let st = ctx.core.device_state(0).unwrap();
    assert!(st.has_camera && st.has_motor && !st.video_running);
    assert_eq!(st.video_mode, Device::video_mode(1));
    assert_eq!(st.depth_mode, Device::depth_mode(2));
    let steps = ctx.close_device(a).unwrap();
    assert!(steps.video_writes.is_none() && steps.depth_writes.is_none());
    let st = ctx.core.device_state(0).unwrap();
    assert!(!st.has_camera && !st.has_motor);
    assert_eq!(usb_error_text(ctx.close_device(Device { handle: 9 })), "invalid device handle");
    ctx.close_device(b).unwrap();
    assert_eq!(ctx.open_count, 0);
    assert!(ctx.can_close());
}

#[test]
fn close_stops_running_streams() {
    let mut ctx = Context::new();
    let d = ctx.open_device(true);
    d.video_started(&mut ctx);
    d.depth_started(&mut ctx);
    assert!(ctx.core.device_state(0).unwrap().video_running);
    let steps = ctx.close_device(d).unwrap();
    assert_eq!(steps.video_writes, Some(vec![(0x05, 0), (0x0c, 0), (0x19, 0)]));
    assert_eq!(steps.depth_writes, Some(vec![(0x06, 0), (0x12, 0)]));
    let st = ctx.core.device_state(0).unwrap();
    assert!(!st.video_running && !st.depth_running);
}

#[test]
fn motor_operations() {
    let mut ctx = Context::new();
    let with_motor = ctx.open_device(true);
    let without = ctx.open_device(false);
    let req = with_motor.set_led(&ctx, LedOption::BlinkRedYellow).unwrap();
    assert_eq!((req.request, req.value), (0x06, 6));
    assert_eq!(usb_error_text(without.set_led(&ctx, LedOption::Green)), "no motor device available");
    assert!(matches!(Device { handle: 5 }.set_led(&ctx, LedOption::Off), Err(Error::DeviceNotFound)));
    let reading = [0u8, 0, 0, 10, 0, 20, 3, 0xe8, 0x14, 0];
    let t = with_motor.update_tilt_state(&ctx, &reading).unwrap();
    assert_eq!((t.accelerometer_x, t.accelerometer_y, t.accelerometer_z), (10, 20, 1000));
    assert_eq!(t.tilt_angle, 20);
    assert!(with_motor.motor_ready(&ctx).is_ok());
    assert_eq!(usb_error_text(without.update_tilt_state(&ctx, &reading)), "no motor device available");
}

#[test]
fn camera_operations() {
    let mut ctx = Context::new();
    let d = ctx.open_device(false);
    assert_eq!(d.ir_brightness(&ctx), Ok(0x15));
    assert_eq!(d.set_ir_brightness(&ctx, 0), Ok((0x15, 1)));
    assert_eq!(d.set_ir_brightness(&ctx, 70), Ok((0x15, 50)));
    assert_eq!(Device { handle: 3 }.ir_brightness(&ctx), Err(Error::DeviceNotFound));
    // Default video mode: medium RGB.
    assert_eq!(d.exposure_scale(&ctx), Ok(true));
    let yuv = Device::find_video_mode(Resolution::Medium, VideoFormat::YuvRgb);
    d.set_video_mode(&mut ctx, yuv).unwrap();
    assert_eq!(d.exposure_scale(&ctx), Ok(false));
    let ir = Device::find_video_mode(Resolution::High, VideoFormat::Ir8Bit);
    d.set_video_mode(&mut ctx, ir).unwrap();
    assert_eq!(d.exposure_scale(&ctx), Err(Error::InvalidMode));
    assert_eq!(Device { handle: 3 }.set_video_mode(&mut ctx, ir), Err(Error::DeviceNotFound));
    assert_eq!(Device::exposure_register(), 0x0009);
}

#[test]
fn video_start_plans() {
    let mut ctx = Context::new();
    let d = ctx.open_device(true);
    let v = d.start_video(&ctx).unwrap();
    assert_eq!(v.format, VideoFormat::Rgb);
    assert_eq!((v.width, v.height), (640, 480));
    assert_eq!(v.wire_frame_size, 640 * 480);
    assert_eq!(v.frame_bytes, 921600);
    assert_eq!(v.frame_words, 0);
    assert_eq!(v.registers.writes, vec![(0x0c, 0), (0x0d, 1), (0x0e, 0x1e), (0x47, 0), (0x05, 1)]);
    assert_eq!(v.registers.outcome, Ok(()));

    let ir = Device::find_video_mode(Resolution::Medium, VideoFormat::Ir10Bit);
    d.set_video_mode(&mut ctx, ir).unwrap();
    let v = d.start_video(&ctx).unwrap();
    assert_eq!(v.wire_frame_size, 640 * 488 * 10 / 8);
    assert_eq!(v.frame_words, 640 * 488);
    assert_eq!(
        v.registers.writes,
        vec![(0x19, 0), (0x1a, 1), (0x1b, 0x1e), (0x48, 0), (0x105, 0), (0x05, 3)]
    );

    let yuv = Device::find_video_mode(Resolution::Medium, VideoFormat::YuvRaw);
    d.set_video_mode(&mut ctx, yuv).unwrap();
    assert_eq!(d.start_video(&ctx).unwrap().wire_frame_size, 640 * 480 * 2);

    // A depth mode set as video mode reads as RGB at its resolution.
    let depth = Device::depth_mode(0);
    d.set_video_mode(&mut ctx, depth).unwrap();
    assert_eq!(d.start_video(&ctx).unwrap().format, VideoFormat::Rgb);

    let low = Device::find_depth_mode(Resolution::High, nect_rs::DepthFormat::Bit11);
    d.set_video_mode(&mut ctx, low).unwrap();
    let v = d.start_video(&ctx).unwrap();
    assert_eq!(v.registers.outcome, Ok(()));

    ctx.close_device(d).unwrap();
    assert_eq!(usb_error_text(d.start_video(&ctx)), "no camera");
    assert_eq!(usb_error_text(Device { handle: 7 }.start_video(&ctx)), "invalid handle");
}

#[test]
fn depth_start_and_stop() {
    let mut ctx = Context::new();
    let d = ctx.open_device(false);
    let s = d.start_depth(&ctx).unwrap();
    assert_eq!(s.wire_frame_size, DEPTH_WIRE_FRAME_SIZE);
    assert_eq!(s.writes.len(), 7);
    assert_eq!(s.writes[2], (0x12, 3));
    d.depth_started(&mut ctx);
    assert_eq!(d.stop_depth(&mut ctx).unwrap(), vec![(0x06, 0), (0x12, 0)]);
    assert!(!ctx.core.device_state(0).unwrap().depth_running);
    assert_eq!(d.stop_video(&mut ctx).unwrap(), vec![(0x05, 0), (0x0c, 0), (0x19, 0)]);
    assert_eq!(usb_error_text(Device { handle: 2 }.stop_depth(&mut ctx)), "invalid handle");
}

#[test]
fn core_state_defaults() {
    let s = DeviceState::new();
    assert!(!s.has_camera && !s.has_motor && !s.dead);
    let mut core = ContextCore::new();
    assert!(core.device_state(0).is_none());
    assert_eq!(core.set_depth_mode(0, s.depth_mode), Err(Error::DeviceNotFound));
    assert!(video_sizes_fit_check(&s.video_mode));
}

#[test]
fn video_frames_are_converted() {
    let mut bytes = vec![0u8; 12];
    let mut words = vec![0u16; 4];
    // Raw formats pass through.
    assert_eq!(process_video_frame(VideoFormat::Bayer, &[1, 2, 3, 4], &mut bytes, &mut words, 2, 2), VideoFrame::Raw);
    // Bayer to RGB.
    assert_eq!(process_video_frame(VideoFormat::Rgb, &[9, 9, 9, 9], &mut bytes, &mut words, 2, 2), VideoFrame::Bytes);
    assert!(bytes.iter().all(|&b| b == 9));
    // Too short a frame is dropped.
    assert_eq!(process_video_frame(VideoFormat::Rgb, &[9, 9, 9], &mut bytes, &mut words, 2, 2), VideoFrame::Dropped);
    // 10-bit infrared to 16 bits.
    let raw = [0xFF, 0xC0, 0x18, 0x00, 0x00];
    assert_eq!(process_video_frame(VideoFormat::Ir10Bit, &raw, &mut bytes, &mut words, 2, 2), VideoFrame::Words);
    assert_eq!(words, vec![0x3FF, 0x001, 0x200, 0]);
    // 10-bit infrared to 8 bits.
    let mut small = vec![0u8; 4];
    assert_eq!(process_video_frame(VideoFormat::Ir8Bit, &raw, &mut small, &mut words, 2, 2), VideoFrame::Bytes);
    assert_eq!(small, vec![0xFF, 0x00, 0x80, 0x00]);
}

#[test]
fn mode_sizes_are_checked_where_they_are_used() {
    let mut ctx = Context::new();
    let d = ctx.open_device(false);
    let mut odd = Device::video_mode(1);
    odd.width = -1;
    // Any mode can be set; its sizes only matter to a stream.
    assert_eq!(d.set_video_mode(&mut ctx, odd), Ok(()));
    assert!(!video_sizes_fit_check(&odd));
    odd.height = 0;
    assert!(video_sizes_fit_check(&odd));
    assert!(conversion_sizes_fit_check(VideoFormat::Bayer, usize::MAX, usize::MAX));
    assert!(!conversion_sizes_fit_check(VideoFormat::Rgb, usize::MAX / 2, 2));
    assert!(conversion_sizes_fit_check(VideoFormat::Ir8Bit, 1280, 1024));
    let mut b = vec![0u8; 1];
    let mut w = vec![0u16; 1];
    assert_eq!(process_video_frame(VideoFormat::YuvRaw, &[1], &mut b, &mut w, usize::MAX, 9), VideoFrame::Raw);
}
