use nect_rs::flags::{
    clamp_ir_brightness, register_for_flag, AUTO_EXPOSURE, IR_BRIGHTNESS_MAX, IR_BRIGHTNESS_MIN, MIRROR_DEPTH,
    MIRROR_VIDEO, NEAR_MODE,
};

#[test]
fn test_register_for_flag() {
    assert_eq!(register_for_flag(MIRROR_DEPTH), Some(0x17));
    assert_eq!(register_for_flag(MIRROR_VIDEO), Some(0x47));
    assert_eq!(register_for_flag(AUTO_EXPOSURE), None);
}

#[test]
fn test_ir_brightness_clamp() {
    assert_eq!(clamp_ir_brightness(0), 1);
    assert_eq!(clamp_ir_brightness(25), 25);
    assert_eq!(clamp_ir_brightness(100), 50);
}

#[test]
fn ir_brightness_bounds_and_idempotence() {
    for b in [0u16, 1, 2, 49, 50, 51, 1000, u16::MAX] {
        let c = clamp_ir_brightness(b);
        assert!(c >= IR_BRIGHTNESS_MIN && c <= IR_BRIGHTNESS_MAX);
        assert_eq!(clamp_ir_brightness(c), c);
    }
    assert_eq!(clamp_ir_brightness(1), 1);
    assert_eq!(clamp_ir_brightness(50), 50);
}

#[test]
fn unmapped_flags_have_no_register() {
    assert_eq!(register_for_flag(NEAR_MODE), None);
    assert_eq!(register_for_flag(0), None);
    assert_eq!(register_for_flag(MIRROR_DEPTH | MIRROR_VIDEO), None);
}
