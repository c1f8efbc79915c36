use nect_rs::usb::{
    count_cameras, find_camera_by_index, find_motor_for_camera, find_sibling, is_audio, is_camera, is_kinect,
    is_motor, serial_candidates, DeviceDescriptor, DeviceKind, UsbDeviceInfo, PID_K4W_AUDIO_ALT_2,
    PID_K4W_CAMERA, PID_KV2_CAMERA, PID_NUI_AUDIO, PID_NUI_CAMERA, PID_NUI_MOTOR, VID_MICROSOFT,
};

fn desc(vid: u16, pid: u16, serial: Option<u8>) -> DeviceDescriptor {
    DeviceDescriptor { vendor_id: vid, product_id: pid, serial_number_string_index: serial }
}

fn dev(pid: u16, bus: u8, port: u8) -> UsbDeviceInfo {
    UsbDeviceInfo { descriptor: Some(desc(VID_MICROSOFT, pid, Some(3))), bus_number: bus, port_number: port }
}

#[test]
fn device_kinds() {
    assert!(is_camera(&desc(VID_MICROSOFT, PID_NUI_CAMERA, None)));
    assert!(is_camera(&desc(VID_MICROSOFT, PID_K4W_CAMERA, None)));
    assert!(!is_camera(&desc(VID_MICROSOFT, PID_KV2_CAMERA, None)));
    assert!(!is_camera(&desc(0x1234, PID_NUI_CAMERA, None)));
    assert!(is_motor(&desc(VID_MICROSOFT, PID_NUI_MOTOR, None)));
    assert!(is_audio(&desc(VID_MICROSOFT, PID_NUI_AUDIO, None)));
    assert!(is_audio(&desc(VID_MICROSOFT, PID_K4W_AUDIO_ALT_2, None)));
    assert!(!is_audio(&desc(VID_MICROSOFT, PID_NUI_MOTOR, None)));
    assert!(is_kinect(&desc(VID_MICROSOFT, PID_NUI_MOTOR, None)));
    assert!(!is_kinect(&desc(VID_MICROSOFT, PID_KV2_CAMERA, None)));
    assert!(!is_kinect(&desc(0x045f, PID_NUI_MOTOR, None)));
}

#[test]
fn counting_and_indexing_cameras() {
    let unreadable = UsbDeviceInfo { descriptor: None, bus_number: 1, port_number: 1 };
    let devices = vec![
        dev(PID_NUI_MOTOR, 1, 1),
        dev(PID_NUI_CAMERA, 1, 1),
        unreadable,
        dev(PID_K4W_CAMERA, 2, 3),
        dev(PID_NUI_AUDIO, 2, 3),
    ];
    assert_eq!(count_cameras(&devices), 2);
    assert_eq!(find_camera_by_index(&devices, 0), Some(1));
    assert_eq!(find_camera_by_index(&devices, 1), Some(3));
    assert_eq!(find_camera_by_index(&devices, 2), None);
    assert_eq!(count_cameras(&[]), 0);
}

#[test]
fn sibling_choice_prefers_port_then_bus() {
    let devices = vec![
        dev(PID_NUI_MOTOR, 5, 1), // other bus
        dev(PID_NUI_MOTOR, 2, 7), // same bus, other port
        dev(PID_NUI_MOTOR, 2, 4), // same bus and port
        dev(PID_NUI_CAMERA, 2, 4),
    ];
    let camera = devices[3];
    assert_eq!(find_motor_for_camera(&devices, &camera), Some(2));
    // Unknown port: the first on the same bus.
    assert_eq!(find_sibling(&devices, 2, 0, DeviceKind::Motor), Some(1));
    // Nothing on the bus: the first anywhere.
    assert_eq!(find_sibling(&devices, 9, 4, DeviceKind::Motor), Some(0));
    // No such device at all.
    assert_eq!(find_sibling(&devices, 2, 4, DeviceKind::Audio), None);
}

#[test]
fn serial_candidates_are_cameras_with_a_serial() {
    let mut no_serial = dev(PID_NUI_CAMERA, 1, 1);
    no_serial.descriptor = Some(desc(VID_MICROSOFT, PID_NUI_CAMERA, None));
    let devices = vec![dev(PID_NUI_CAMERA, 1, 2), no_serial, dev(PID_NUI_MOTOR, 1, 2), dev(PID_K4W_CAMERA, 3, 1)];
    assert_eq!(serial_candidates(&devices), vec![0, 3]);
}
