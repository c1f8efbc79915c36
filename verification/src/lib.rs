//! Driver logic for the Xbox 360 Kinect: frame modes, camera command framing,
//! packet-stream reassembly, pixel format conversion, depth registration and
//! firmware loading, each with its contract.

use vstd::prelude::*;

pub mod camera_usb;
pub mod cameras;
pub mod codec;
pub mod device;
pub mod device_core;
pub mod flags;
pub mod isoc;
pub mod loader;
pub mod modes;
pub mod protocol;
pub mod registration;
pub mod stream;
pub mod stream_bridge;
pub mod text;
pub mod usb;

pub use crate::device::{Context, Device};
pub use crate::device_core::LogLevel;

verus! {

/// Error type for driver operations.
#[derive(Debug, Clone, PartialEq, Eq)]
pub enum Error {
    InitFailed,
    DeviceOpenFailed,
    DeviceNotFound,
    IoError,
    InvalidMode,
    Unsupported,
    Usb(String),
    Other(i32),
}

/// Maps a C-style return code to a result: negative codes are errors.
pub fn check(ret: i32) -> (r: Result<(), Error>)
    ensures
        ret >= 0 ==> r == Ok::<(), Error>(()),
        ret < 0 ==> r == Err::<(), Error>(Error::Other(ret)),
{
    if ret == 0 {
        Ok(())
    } else if ret < 0 {
        Err(Error::Other(ret))
    } else {
        Ok(())
    }
}

/// Which subdevices to open, as a bit set.
#[derive(Debug, Clone, Copy, PartialEq, Eq)]
pub struct DeviceFlags(pub u32);

impl DeviceFlags {
    /// The motor subdevice.
    pub fn motor() -> (r: Self)
        ensures
            r.0 == 1,
    {
        DeviceFlags(1)
    }

    /// The camera subdevice.
    pub fn camera() -> (r: Self)
        ensures
            r.0 == 2,
    {
        DeviceFlags(2)
    }

    /// The audio subdevice.
    pub fn audio() -> (r: Self)
        ensures
            r.0 == 4,
    {
        DeviceFlags(4)
    }

    /// The bit set of this value.
    pub open spec fn bits(self) -> u32 {
        self.0
    }

    pub fn empty() -> (r: Self)
        ensures
            r.0 == 0,
    {
        DeviceFlags(0)
    }

    pub fn union(self, other: Self) -> (r: Self)
        ensures
            r.0 == self.0 | other.0,
    {
        DeviceFlags(self.0 | other.0)
    }

    pub fn contains(self, other: Self) -> (r: bool)
        ensures
            r == (self.0 & other.0 == other.0),
    {
        (self.0 & other.0) == other.0
    }
}

/// A union contains each of its operands, and contains exactly the sets
/// that both operands together cover.
pub proof fn lemma_union_contains(a: DeviceFlags, b: DeviceFlags, c: DeviceFlags)
    ensures
        (a.0 | b.0) & a.0 == a.0,
        (a.0 | b.0) & b.0 == b.0,
        ((a.0 | b.0) & c.0 == c.0) <== (a.0 & c.0 == c.0),
        (0u32 & c.0 == c.0) <==> c.0 == 0,
{
    let x = a.0;
    let y = b.0;
    let z = c.0;
    assert((x | y) & x == x) by (bit_vector);
    assert((x | y) & y == y) by (bit_vector);
    assert((x & z == z) ==> ((x | y) & z == z)) by (bit_vector);
    assert((0u32 & z == z) <==> z == 0) by (bit_vector);
}

/// LED color / pattern.
#[derive(Debug, Clone, Copy, PartialEq, Eq)]
pub enum LedOption {
    Off,
    Green,
    Red,
    Yellow,
    BlinkGreen,
    BlinkRedYellow,
}

impl LedOption {
    /// The firmware code of each LED option.
    pub open spec fn spec_raw(self) -> u8 {
        match self {
            LedOption::Off => 0,
            LedOption::Green => 1,
            LedOption::Red => 2,
            LedOption::Yellow => 3,
            LedOption::BlinkGreen => 4,
            LedOption::BlinkRedYellow => 6,
        }
    }

    pub fn to_raw(self) -> (r: u8)
        ensures
            r == self.spec_raw(),
    {
        match self {
            LedOption::Off => 0,
            LedOption::Green => 1,
            LedOption::Red => 2,
            LedOption::Yellow => 3,
            LedOption::BlinkGreen => 4,
            LedOption::BlinkRedYellow => 6,
        }
    }
}

/// Camera resolution.
#[derive(Debug, Clone, Copy, PartialEq, Eq, Structural)]
pub enum Resolution {
    Low,
    Medium,
    High,
}

/// Video pixel format.
#[derive(Debug, Clone, Copy, PartialEq, Eq, Structural)]
pub enum VideoFormat {
    Rgb,
    Bayer,
    Ir8Bit,
    Ir10Bit,
    Ir10BitPacked,
    YuvRgb,
    YuvRaw,
}

/// Depth pixel format.
#[derive(Debug, Clone, Copy, PartialEq, Eq, Structural)]
pub enum DepthFormat {
    Bit11,
    Bit10,
    Bit11Packed,
    Bit10Packed,
    Registered,
    Mm,
}

/// Describes a frame mode (resolution, format, size, framerate).
#[derive(Debug, Clone, Copy, PartialEq, Eq, Structural)]
pub struct FrameMode {
    pub resolution: Resolution,
    pub video_format: Option<VideoFormat>,
    pub depth_format: Option<DepthFormat>,
    pub bytes: i32,
    pub width: i16,
    pub height: i16,
    pub data_bits_per_pixel: i8,
    pub padding_bits_per_pixel: i8,
    pub framerate: i8,
    pub is_valid: bool,
}

impl FrameMode {
    pub open spec fn spec_resolution(self) -> Resolution {
        self.resolution
    }

    pub open spec fn spec_video_format(self) -> VideoFormat {
        match self.video_format {
            Some(f) => f,
            None => VideoFormat::Rgb,
        }
    }

    pub open spec fn spec_depth_format(self) -> DepthFormat {
        match self.depth_format {
            Some(f) => f,
            None => DepthFormat::Bit11,
        }
    }

    pub fn resolution(&self) -> (r: Resolution)
        ensures
            r == self.resolution,
    {
        self.resolution
    }

    pub fn bytes(&self) -> (r: i32)
        ensures
            r == self.bytes,
    {
        self.bytes
    }

    pub fn width(&self) -> (r: i16)
        ensures
            r == self.width,
    {
        self.width
    }

    pub fn height(&self) -> (r: i16)
        ensures
            r == self.height,
    {
        self.height
    }

    pub fn framerate(&self) -> (r: i8)
        ensures
            r == self.framerate,
    {
        self.framerate
    }

    pub fn is_valid(&self) -> (r: bool)
        ensures
            r == self.is_valid,
    {
        self.is_valid
    }

    /// The video format, or `Rgb` for a depth mode.
    pub fn video_format(&self) -> (r: VideoFormat)
        ensures
            r == self.spec_video_format(),
    {
        match self.video_format {
            Some(f) => f,
            None => VideoFormat::Rgb,
        }
    }

    /// The depth format, or `Bit11` for a video mode.
    pub fn depth_format(&self) -> (r: DepthFormat)
        ensures
            r == self.spec_depth_format(),
    {
        match self.depth_format {
            Some(f) => f,
            None => DepthFormat::Bit11,
        }
    }

    pub fn data_bits_per_pixel(&self) -> (r: i8)
        ensures
            r == self.data_bits_per_pixel,
    {
        self.data_bits_per_pixel
    }

    pub fn padding_bits_per_pixel(&self) -> (r: i8)
        ensures
            r == self.padding_bits_per_pixel,
    {
        self.padding_bits_per_pixel
    }
}

/// Tilt motor status.
#[derive(Debug, Clone, Copy, PartialEq, Eq, Structural)]
pub enum TiltStatus {
    Stopped,
    Limit,
    Moving,
}

/// Raw accelerometer + tilt state.
#[derive(Debug, Clone, Copy)]
pub struct TiltState {
    pub accelerometer_x: i16,
    pub accelerometer_y: i16,
    pub accelerometer_z: i16,
    pub tilt_angle: i8,
    pub tilt_status: TiltStatus,
}

impl TiltState {
    pub fn accelerometer_x(&self) -> (r: i16)
        ensures
            r == self.accelerometer_x,
    {
        self.accelerometer_x
    }

    pub fn accelerometer_y(&self) -> (r: i16)
        ensures
            r == self.accelerometer_y,
    {
        self.accelerometer_y
    }

    pub fn accelerometer_z(&self) -> (r: i16)
        ensures
            r == self.accelerometer_z,
    {
        self.accelerometer_z
    }

    pub fn tilt_angle(&self) -> (r: i8)
        ensures
            r == self.tilt_angle,
    {
        self.tilt_angle
    }

    pub fn tilt_status(&self) -> (r: TiltStatus)
        ensures
            r == self.tilt_status,
    {
        self.tilt_status
    }
}

} // verus!
