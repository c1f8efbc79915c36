use nect_rs::text::{push_decimal, push_decimal2, push_hex_list, push_signed_decimal};
use nect_rs::{check, DeviceFlags, Error, LedOption, LogLevel};

#[test]
fn check_maps_return_codes() {
    assert_eq!(check(0), Ok(()));
    assert_eq!(check(7), Ok(()));
    assert_eq!(check(-3), Err(Error::Other(-3)));
}

#[test]
fn device_flags_sets() {
    let mc = DeviceFlags::motor().union(DeviceFlags::camera());
    assert_eq!(mc, DeviceFlags(3));
    assert!(mc.contains(DeviceFlags::motor()));
    assert!(mc.contains(DeviceFlags::camera()));
    assert!(!mc.contains(DeviceFlags::audio()));
    assert!(mc.contains(DeviceFlags::empty()));
    assert!(!DeviceFlags::empty().contains(DeviceFlags::audio()));
}

#[test]
fn led_codes() {
    assert_eq!(LedOption::Off.to_raw(), 0);
    assert_eq!(LedOption::Yellow.to_raw(), 3);
    assert_eq!(LedOption::BlinkGreen.to_raw(), 4);
    assert_eq!(LedOption::BlinkRedYellow.to_raw(), 6);
}

#[test]
fn log_level_values() {
    assert_eq!(LogLevel::Fatal.value(), 0);
    assert_eq!(LogLevel::Spew.value(), 6);
    assert!(nect_rs::device_core::should_log(LogLevel::Warning, LogLevel::Notice));
    assert!(!nect_rs::device_core::should_log(LogLevel::Debug, LogLevel::Notice));
}

#[test]
fn numbers_as_text() {
    let mut s = String::new();
    push_decimal(&mut s, 0);
    s.push(' ');
    push_decimal(&mut s, 18446744073709551615);
    s.push(' ');
    push_decimal2(&mut s, 7);
    s.push(' ');
    push_decimal2(&mut s, 42);
    s.push(' ');
    push_signed_decimal(&mut s, -9223372036854775808);
    s.push(' ');
    push_hex_list(&mut s, &[0x0a, 0xff, 0x00]);
    s.push(' ');
    push_hex_list(&mut s, &[]);
    assert_eq!(s, "0 18446744073709551615 07 42 -9223372036854775808 [0a, ff, 00] []");
}
