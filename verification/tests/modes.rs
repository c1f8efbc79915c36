use nect_rs::modes::{lookup_depth_mode, lookup_video_mode, num_depth_modes, num_video_modes};
use nect_rs::{DepthFormat, Device, Resolution, VideoFormat};

#[test]
fn test_video_mode_lookup_rgb_high() {
    let mode = lookup_video_mode(Resolution::High, VideoFormat::Rgb).unwrap();
    assert_eq!(mode.width(), 1280);
    assert_eq!(mode.height(), 1024);
    assert_eq!(mode.framerate(), 10);
    assert_eq!(mode.bytes(), 1280 * 1024 * 3);
    assert!(mode.is_valid());
}

#[test]
fn test_video_mode_lookup_bayer_medium() {
    let mode = lookup_video_mode(Resolution::Medium, VideoFormat::Bayer).unwrap();
    assert_eq!(mode.width(), 640);
    assert_eq!(mode.height(), 480);
    assert_eq!(mode.framerate(), 30);
    assert!(mode.is_valid());
}

#[test]
fn test_depth_mode_lookup_11bit_medium() {
    let mode = lookup_depth_mode(Resolution::Medium, DepthFormat::Bit11).unwrap();
    assert_eq!(mode.width(), 640);
    assert_eq!(mode.height(), 480);
    assert_eq!(mode.bytes(), 640 * 480 * 2);
    assert!(mode.is_valid());
}

#[test]
fn test_depth_mode_invalid_high() {
    let mode = lookup_depth_mode(Resolution::High, DepthFormat::Bit11).unwrap();
    assert!(!mode.is_valid());
}

#[test]
fn test_num_video_modes() {
    assert_eq!(num_video_modes(), 12);
}

#[test]
fn test_num_depth_modes() {
    assert_eq!(num_depth_modes(), 6);
}

#[test]
fn missing_modes_are_none() {
    assert!(lookup_video_mode(Resolution::Low, VideoFormat::Rgb).is_none());
    assert!(lookup_video_mode(Resolution::High, VideoFormat::YuvRgb).is_none());
    assert!(lookup_depth_mode(Resolution::Low, DepthFormat::Bit11).is_none());
    assert!(lookup_depth_mode(Resolution::High, DepthFormat::Mm).is_none());
}

#[test]
fn lookups_return_the_requested_mode() {
    let m = lookup_video_mode(Resolution::Medium, VideoFormat::Ir10Bit).unwrap();
    assert_eq!(m.resolution(), Resolution::Medium);
    assert_eq!(m.video_format(), VideoFormat::Ir10Bit);
    assert_eq!(m.height(), 488);
    assert_eq!(m.data_bits_per_pixel(), 10);
    assert_eq!(m.padding_bits_per_pixel(), 6);
    let d = lookup_depth_mode(Resolution::Medium, DepthFormat::Bit10Packed).unwrap();
    assert_eq!(d.depth_format(), DepthFormat::Bit10Packed);
    assert_eq!(d.bytes(), 384000);
    // A depth mode reads as RGB video, a video mode as 11-bit depth.
    assert_eq!(d.video_format(), VideoFormat::Rgb);
    assert_eq!(m.depth_format(), DepthFormat::Bit11);
}

#[test]
fn device_mode_tables_and_fallbacks() {
    assert_eq!(Device::video_mode_count(), 12);
    assert_eq!(Device::depth_mode_count(), 6);
    let first = Device::video_mode(0);
    assert_eq!(first.resolution(), Resolution::High);
    assert_eq!(first.video_format(), VideoFormat::Rgb);
    // Out of range: the first entry.
    assert_eq!(Device::video_mode(99), first);
    assert_eq!(Device::depth_mode(99), Device::depth_mode(0));
    // Not found: the first entry.
    assert_eq!(Device::find_video_mode(Resolution::Low, VideoFormat::Bayer), first);
    assert_eq!(Device::find_depth_mode(Resolution::Low, DepthFormat::Mm), Device::depth_mode(0));
    let yuv = Device::find_video_mode(Resolution::Medium, VideoFormat::YuvRaw);
    assert_eq!(yuv.framerate(), 15);
    assert_eq!(yuv.bytes(), 614400);
}

#[test]
fn table_modes_have_frame_sizes() {
    for i in 0..12 {
        assert!(nect_rs::device_core::video_sizes_fit_check(&Device::video_mode(i)));
    }
    for i in 0..11 {
        assert!(nect_rs::device_core::video_sizes_fit_check(&Device::depth_mode(i)));
    }
}
