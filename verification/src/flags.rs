//! Camera flag mapping and IR brightness limits.

use vstd::prelude::*;

verus! {

/// Flag bitmasks for camera options.
pub const AUTO_EXPOSURE: u32 = 16384u32;

pub const AUTO_FLICKER: u32 = 128u32;

pub const AUTO_WHITE_BALANCE: u32 = 2u32;

pub const RAW_COLOR: u32 = 16u32;

pub const MIRROR_DEPTH: u32 = 65536u32;

pub const MIRROR_VIDEO: u32 = 131072u32;

/// Kinect for Windows only.
pub const NEAR_MODE: u32 = 262144u32;

/// The hardware register behind a high-level flag: the mirror flags have
/// one, the other flags none.
pub fn register_for_flag(flag: u32) -> (r: Option<u16>)
    ensures
        flag == MIRROR_DEPTH ==> r == Some(0x17u16),
        flag == MIRROR_VIDEO ==> r == Some(0x47u16),
        flag != MIRROR_DEPTH && flag != MIRROR_VIDEO ==> r is None,
{
    if flag == MIRROR_DEPTH {
        Some(0x17)
    } else if flag == MIRROR_VIDEO {
        Some(0x47)
    } else {
        None
    }
}

/// Lowest IR emitter brightness the firmware accepts.
pub const IR_BRIGHTNESS_MIN: u16 = 1u16;

/// Highest IR emitter brightness the firmware accepts.
pub const IR_BRIGHTNESS_MAX: u16 = 50u16;

/// The brightness nearest to `b` within [1, 50].
pub open spec fn spec_clamp_ir_brightness(b: u16) -> u16 {
    if b < IR_BRIGHTNESS_MIN {
        IR_BRIGHTNESS_MIN
    } else if b > IR_BRIGHTNESS_MAX {
        IR_BRIGHTNESS_MAX
    } else {
        b
    }
}

/// Clamp IR brightness to the valid range [1, 50].
pub fn clamp_ir_brightness(brightness: u16) -> (r: u16)
    ensures
        r == spec_clamp_ir_brightness(brightness),
{
    if brightness < IR_BRIGHTNESS_MIN {
        IR_BRIGHTNESS_MIN
    } else if brightness > IR_BRIGHTNESS_MAX {
        IR_BRIGHTNESS_MAX
    } else {
        brightness
    }
}

/// Clamping lands in the valid range, keeps values already in it, and
/// clamping twice is clamping once.
pub proof fn lemma_clamp_ir_brightness(b: u16)
    ensures
        IR_BRIGHTNESS_MIN <= spec_clamp_ir_brightness(b) <= IR_BRIGHTNESS_MAX,
        IR_BRIGHTNESS_MIN <= b <= IR_BRIGHTNESS_MAX ==> spec_clamp_ir_brightness(b) == b,
        spec_clamp_ir_brightness(spec_clamp_ir_brightness(b)) == spec_clamp_ir_brightness(b),
{
}

} // verus!
