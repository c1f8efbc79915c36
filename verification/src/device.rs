//! The driver's context and its devices: opening and closing devices, and
//! what each operation on a device decides before and after its transfers.
//!
//! The transfers themselves are made by the caller. An operation that needs
//! a subdevice first checks here that the device has it, and is told what to
//! send; what comes back is interpreted here too.

use vstd::prelude::*;

use crate::camera_usb::{ControlRequest, CMOS_SHUTTER, REG_IR_BRIGHTNESS, led_request, parse_tilt_state};
use crate::device_core::{
    CloseSteps, ContextCore, DepthStart, VideoStart, close_steps_of, closed, depth_stop_writes, video_sizes_fit,
    video_start_of, video_stop_writes,
};
use crate::flags::{clamp_ir_brightness, spec_clamp_ir_brightness};
use crate::modes::{
    NUM_DEPTH_MODE_ENTRIES, NUM_VIDEO_MODE_ENTRIES, count_valid, depth_mode_entry, depth_modes, lookup_depth_mode,
    lookup_video_mode, num_depth_modes, num_video_modes, spec_lookup_depth_mode, spec_lookup_video_mode,
    video_mode_entry, video_modes,
};
use crate::usb::{DeviceKind, UsbDeviceInfo, count_cameras, count_kind};
use crate::{DepthFormat, DeviceFlags, Error, FrameMode, LedOption, LogLevel, Resolution, TiltState, VideoFormat};

verus! {

/// The driver's context: the state of its devices, and how many of them
/// are open.
pub struct Context {
    pub core: ContextCore,
    pub open_count: usize,
}

/// A device opened through a context, known by its handle.
#[derive(Debug, Clone, Copy, PartialEq, Eq, Structural)]
pub struct Device {
    pub handle: usize,
}

impl Context {
    /// A context with no device open.
    pub fn new() -> (r: Self)
        ensures
            r.core.devices@.len() == 0,
            r.core.log_level == LogLevel::Notice,
            r.core.enabled_subdevices.0 == 3,
            r.open_count == 0,
    {
        Context { core: ContextCore::new(), open_count: 0 }
    }

    /// The number of Kinect cameras among the devices on the bus.
    pub fn num_devices(&self, devices: &[UsbDeviceInfo]) -> (r: usize)
        ensures
            r == count_kind(devices@, DeviceKind::Camera),
    {
        count_cameras(devices)
    }

    /// Selects the subdevices that future devices open.
    pub fn select_subdevices(&mut self, flags: DeviceFlags)
        ensures
            final(self).core.enabled_subdevices.0 == flags.0 & 7,
            final(self).core.devices@ == old(self).core.devices@,
            final(self).core.log_level == old(self).core.log_level,
            final(self).open_count == old(self).open_count,
    {
        self.core.select_subdevices(flags);
    }

    pub fn set_log_level(&mut self, level: LogLevel)
        ensures
            final(self).core.log_level == level,
            final(self).core.devices@ == old(self).core.devices@,
            final(self).core.enabled_subdevices == old(self).core.enabled_subdevices,
            final(self).open_count == old(self).open_count,
    {
        self.core.set_log_level(level);
    }

    /// Records a device whose camera was opened, with its motor where one
    /// was found.
    pub fn open_device(&mut self, has_motor: bool) -> (r: Device)
        requires
            old(self).open_count < usize::MAX,
        ensures
            r.handle == old(self).core.devices@.len(),
            final(self).core.devices@.len() == old(self).core.devices@.len() + 1,
            forall|i: int| 0 <= i < r.handle ==> #[trigger] final(self).core.devices@[i] == old(self).core.devices@[i],
            final(self).core.devices@[r.handle as int].has_camera,
            final(self).core.devices@[r.handle as int].has_motor == has_motor,
            final(self).core.devices@[r.handle as int].video_mode == video_modes()[1],
            final(self).core.devices@[r.handle as int].depth_mode == depth_modes()[2],
            final(self).open_count == old(self).open_count + 1,
    {
        let handle = self.core.open_device(has_motor);
        self.open_count = self.open_count + 1;
        Device { handle }
    }

    /// Closes a device: the register writes that stop its running streams;
    /// the device no longer counts as open, whatever the close came to.
    pub fn close_device(&mut self, device: Device) -> (r: Result<CloseSteps, Error>)
        ensures
            final(self).open_count == if old(self).open_count > 0 {
                old(self).open_count - 1
            } else {
                0
            },
            device.handle >= old(self).core.devices@.len() ==> (r matches Err(Error::Usb(m)) && m@
                == "invalid device handle"@),
            device.handle < old(self).core.devices@.len() ==> (r matches Ok(steps) && close_steps_of(
                steps,
                old(self).core.devices@[device.handle as int],
            ) && final(self).core.devices@ == old(self).core.devices@.update(
                device.handle as int,
                closed(old(self).core.devices@[device.handle as int]),
            )),
            device.handle >= old(self).core.devices@.len() ==> final(self).core.devices@ == old(self).core.devices@,
    {
        let r = self.core.close_device(device.handle);
        self.open_count = self.open_count.saturating_sub(1);
        r
    }

    /// Whether the context can go: no device is open any more.
    pub fn can_close(&self) -> (r: bool)
        ensures
            r == (self.open_count == 0),
    {
        self.open_count == 0
    }
}

/// The entry of the video table at `index`, or the first entry where there
/// is none.
pub open spec fn video_entry_or_first(index: int) -> FrameMode {
    if 0 <= index < video_modes().len() {
        video_modes()[index]
    } else {
        video_modes()[0]
    }
}

/// The entry of the depth table at `index`, or the first entry where there
/// is none.
pub open spec fn depth_entry_or_first(index: int) -> FrameMode {
    if 0 <= index < depth_modes().len() {
        depth_modes()[index]
    } else {
        depth_modes()[0]
    }
}

impl Device {
    /// Checks that the device is open with its motor.
    pub fn motor_ready(&self, ctx: &Context) -> (r: Result<(), Error>)
        ensures
            self.handle >= ctx.core.devices@.len() ==> r == Err::<(), Error>(Error::DeviceNotFound),
            self.handle < ctx.core.devices@.len() && !ctx.core.devices@[self.handle as int].has_motor ==> (r matches Err(
                Error::Usb(m),
            ) && m@ == "no motor device available"@),
            self.handle < ctx.core.devices@.len() && ctx.core.devices@[self.handle as int].has_motor ==> r is Ok,
    {
        match ctx.core.device_state(self.handle) {
            None => Err(Error::DeviceNotFound),
            Some(state) => if state.has_motor {
                Ok(())
            } else {
                Err(Error::Usb("no motor device available".to_owned()))
            },
        }
    }

    /// Checks that the device is open with its camera.
    pub fn camera_ready(&self, ctx: &Context) -> (r: Result<(), Error>)
        ensures
            self.handle >= ctx.core.devices@.len() ==> r == Err::<(), Error>(Error::DeviceNotFound),
            self.handle < ctx.core.devices@.len() && !ctx.core.devices@[self.handle as int].has_camera ==> (r matches Err(
                Error::Usb(m),
            ) && m@ == "no camera device available"@),
            self.handle < ctx.core.devices@.len() && ctx.core.devices@[self.handle as int].has_camera ==> r is Ok,
    {
        match ctx.core.device_state(self.handle) {
            None => Err(Error::DeviceNotFound),
            Some(state) => if state.has_camera {
                Ok(())
            } else {
                Err(Error::Usb("no camera device available".to_owned()))
            },
        }
    }

    /// The request that sets the LED, on a device with its motor.
    pub fn set_led(&self, ctx: &Context, option: LedOption) -> (r: Result<ControlRequest, Error>)
        ensures
            self.handle >= ctx.core.devices@.len() ==> r == Err::<ControlRequest, Error>(Error::DeviceNotFound),
            self.handle < ctx.core.devices@.len() && !ctx.core.devices@[self.handle as int].has_motor ==> (r matches Err(
                Error::Usb(m),
            ) && m@ == "no motor device available"@),
            self.handle < ctx.core.devices@.len() && ctx.core.devices@[self.handle as int].has_motor ==> (r matches Ok(
                req,
            ) && req.request_type == 0x40 && req.request == 0x06 && req.value == option.spec_raw() as u16
                && req.index == 0 && req.data@ == seq![option.spec_raw()]),
    {
        match self.motor_ready(ctx) {
            Err(e) => Err(e),
            Ok(()) => Ok(led_request(option.to_raw())),
        }
    }

    /// The tilt state of a device with its motor, from the 10 bytes read
    /// from the motor.
    pub fn update_tilt_state(&self, ctx: &Context, reading: &[u8; 10]) -> (r: Result<TiltState, Error>)
        ensures
            self.handle >= ctx.core.devices@.len() ==> r == Err::<TiltState, Error>(Error::DeviceNotFound),
            self.handle < ctx.core.devices@.len() && !ctx.core.devices@[self.handle as int].has_motor ==> (r matches Err(
                Error::Usb(m),
            ) && m@ == "no motor device available"@),
            self.handle < ctx.core.devices@.len() && ctx.core.devices@[self.handle as int].has_motor ==> (r matches Ok(
                t,
            ) && t.accelerometer_x == crate::codec::be_i16(reading@[2], reading@[3])
                && t.accelerometer_y == crate::codec::be_i16(reading@[4], reading@[5])
                && t.accelerometer_z == crate::codec::be_i16(reading@[6], reading@[7])
                && t.tilt_angle == crate::camera_usb::signed_byte(reading@[8])
                && t.tilt_status == crate::camera_usb::tilt_status_of(reading@[9])),
    {
        match self.motor_ready(ctx) {
            Err(e) => Err(e),
            Ok(()) => Ok(parse_tilt_state(reading)),
        }
    }

    /// How the video stream of the device starts.
    pub fn start_video(&self, ctx: &Context) -> (r: Result<VideoStart, Error>)
        requires
            self.handle < ctx.core.devices@.len() && ctx.core.devices@[self.handle as int].has_camera
                ==> video_sizes_fit(ctx.core.devices@[self.handle as int].video_mode),
        ensures
            self.handle >= ctx.core.devices@.len() ==> (r matches Err(Error::Usb(m)) && m@ == "invalid handle"@),
            self.handle < ctx.core.devices@.len() && !ctx.core.devices@[self.handle as int].has_camera ==> (r matches Err(
                Error::Usb(m),
            ) && m@ == "no camera"@),
            self.handle < ctx.core.devices@.len() && ctx.core.devices@[self.handle as int].has_camera ==> (r matches Ok(
                v,
            ) && video_start_of(v, ctx.core.devices@[self.handle as int].video_mode)),
    {
        ctx.core.start_video(self.handle)
    }

    /// Records that the video stream of the device started.
    pub fn video_started(&self, ctx: &mut Context)
        ensures
            self.handle < old(ctx).core.devices@.len() ==> final(ctx).core.devices@[self.handle as int].video_running,
            final(ctx).open_count == old(ctx).open_count,
    {
        ctx.core.video_started(self.handle);
    }

    /// Stops the video stream of the device: the register writes to make,
    /// whatever each of them comes to.
    pub fn stop_video(&self, ctx: &mut Context) -> (r: Result<Vec<(u16, u16)>, Error>)
        ensures
            final(ctx).open_count == old(ctx).open_count,
            self.handle >= old(ctx).core.devices@.len() ==> (r matches Err(Error::Usb(m)) && m@
                == "invalid handle"@),
            self.handle < old(ctx).core.devices@.len() ==> (r matches Ok(w) && w@ == (if old(ctx).core.devices@[self.handle as int].has_camera {
                video_stop_writes()
            } else {
                seq![]
            }) && !final(ctx).core.devices@[self.handle as int].video_running),
    {
        ctx.core.stop_video(self.handle)
    }

    /// The number of valid video modes.
    pub fn video_mode_count() -> (r: usize)
        ensures
            r == count_valid(video_modes()),
    {
        num_video_modes()
    }

    /// The video mode at `index` of the table, or the first one where the
    /// table has no such entry.
    pub fn video_mode(index: usize) -> (r: FrameMode)
        ensures
            r == video_entry_or_first(index as int),
    {
        if index < NUM_VIDEO_MODE_ENTRIES {
            video_mode_entry(index)
        } else {
            video_mode_entry(0)
        }
    }

    /// The video mode of the given resolution and format, or the first of
    /// the table where there is none.
    pub fn find_video_mode(res: Resolution, fmt: VideoFormat) -> (r: FrameMode)
        ensures
            r == match spec_lookup_video_mode(res, fmt) {
                Some(m) => m,
                None => video_modes()[0],
            },
    {
        match lookup_video_mode(res, fmt) {
            Some(m) => m,
            None => video_mode_entry(0),
        }
    }

    /// Sets the video mode of the device.
    pub fn set_video_mode(&self, ctx: &mut Context, mode: FrameMode) -> (r: Result<(), Error>)
        ensures
            final(ctx).open_count == old(ctx).open_count,
            self.handle < old(ctx).core.devices@.len() ==> r is Ok && final(ctx).core.devices@[self.handle as int].video_mode
                == mode,
            self.handle >= old(ctx).core.devices@.len() ==> r == Err::<(), Error>(Error::DeviceNotFound),
    {
        ctx.core.set_video_mode(self.handle, mode)
    }

    /// Which exposure scale the device's video mode takes: `true` for RGB
    /// and Bayer, `false` for YUV; infrared has no exposure.
    pub fn exposure_scale(&self, ctx: &Context) -> (r: Result<bool, Error>)
        ensures
            self.handle >= ctx.core.devices@.len() ==> r == Err::<bool, Error>(Error::DeviceNotFound),
            self.handle < ctx.core.devices@.len() ==> {
                let d = ctx.core.devices@[self.handle as int];
                let f = d.video_mode.spec_video_format();
                &&& (f == VideoFormat::Ir8Bit || f == VideoFormat::Ir10Bit || f == VideoFormat::Ir10BitPacked)
                    ==> r == Err::<bool, Error>(Error::InvalidMode)
                &&& !(f == VideoFormat::Ir8Bit || f == VideoFormat::Ir10Bit || f == VideoFormat::Ir10BitPacked)
                    && !d.has_camera ==> (r matches Err(Error::Usb(m)) && m@ == "no camera device available"@)
                &&& !(f == VideoFormat::Ir8Bit || f == VideoFormat::Ir10Bit || f == VideoFormat::Ir10BitPacked)
                    && d.has_camera ==> r == Ok::<bool, Error>(f == VideoFormat::Rgb || f == VideoFormat::Bayer)
            },
    {
        let state = match ctx.core.device_state(self.handle) {
            None => {
                return Err(Error::DeviceNotFound);
            },
            Some(s) => s,
        };
        let is_rgb = match state.video_mode.video_format() {
            VideoFormat::Rgb | VideoFormat::Bayer => true,
            VideoFormat::YuvRgb | VideoFormat::YuvRaw => false,
            _ => {
                return Err(Error::InvalidMode);
            },
        };
        if !state.has_camera {
            return Err(Error::Usb("no camera device available".to_owned()));
        }
        Ok(is_rgb)
    }

    /// The CMOS register that holds the exposure.
    pub fn exposure_register() -> (r: u16)
        ensures
            r == CMOS_SHUTTER,
    {
        CMOS_SHUTTER
    }

    /// The register that holds the IR brightness, on a device with its
    /// camera.
    pub fn ir_brightness(&self, ctx: &Context) -> (r: Result<u16, Error>)
        ensures
            self.handle >= ctx.core.devices@.len() ==> r == Err::<u16, Error>(Error::DeviceNotFound),
            self.handle < ctx.core.devices@.len() && !ctx.core.devices@[self.handle as int].has_camera ==> (r matches Err(
                Error::Usb(m),
            ) && m@ == "no camera device available"@),
            self.handle < ctx.core.devices@.len() && ctx.core.devices@[self.handle as int].has_camera ==> r == Ok::<
                u16,
                Error,
            >(REG_IR_BRIGHTNESS),
    {
        match self.camera_ready(ctx) {
            Err(e) => Err(e),
            Ok(()) => Ok(REG_IR_BRIGHTNESS),
        }
    }

    /// The register write that sets the IR brightness, clamped to the
    /// firmware's range, on a device with its camera.
    pub fn set_ir_brightness(&self, ctx: &Context, brightness: u16) -> (r: Result<(u16, u16), Error>)
        ensures
            self.handle >= ctx.core.devices@.len() ==> r == Err::<(u16, u16), Error>(Error::DeviceNotFound),
            self.handle < ctx.core.devices@.len() && !ctx.core.devices@[self.handle as int].has_camera ==> (r matches Err(
                Error::Usb(m),
            ) && m@ == "no camera device available"@),
            self.handle < ctx.core.devices@.len() && ctx.core.devices@[self.handle as int].has_camera ==> r == Ok::<
                (u16, u16),
                Error,
            >((REG_IR_BRIGHTNESS, spec_clamp_ir_brightness(brightness))),
    {
        match self.camera_ready(ctx) {
            Err(e) => Err(e),
            Ok(()) => Ok((REG_IR_BRIGHTNESS, clamp_ir_brightness(brightness))),
        }
    }

    /// How the depth stream of the device starts.
    pub fn start_depth(&self, ctx: &Context) -> (r: Result<DepthStart, Error>)
        ensures
            self.handle >= ctx.core.devices@.len() ==> (r matches Err(Error::Usb(m)) && m@ == "invalid handle"@),
            self.handle < ctx.core.devices@.len() && !ctx.core.devices@[self.handle as int].has_camera ==> (r matches Err(
                Error::Usb(m),
            ) && m@ == "no camera"@),
            self.handle < ctx.core.devices@.len() && ctx.core.devices@[self.handle as int].has_camera ==> (r matches Ok(
                d,
            ) && d.wire_frame_size == crate::device_core::DEPTH_WIRE_FRAME_SIZE && d.writes@
                == crate::camera_usb::depth_stream_writes(DepthFormat::Bit11)),
    {
        ctx.core.start_depth(self.handle)
    }

    /// Records that the depth stream of the device started.
    pub fn depth_started(&self, ctx: &mut Context)
        ensures
            self.handle < old(ctx).core.devices@.len() ==> final(ctx).core.devices@[self.handle as int].depth_running,
            final(ctx).open_count == old(ctx).open_count,
    {
        ctx.core.depth_started(self.handle);
    }

    /// Stops the depth stream of the device: the register writes to make,
    /// whatever each of them comes to.
    pub fn stop_depth(&self, ctx: &mut Context) -> (r: Result<Vec<(u16, u16)>, Error>)
        ensures
            final(ctx).open_count == old(ctx).open_count,
            self.handle >= old(ctx).core.devices@.len() ==> (r matches Err(Error::Usb(m)) && m@
                == "invalid handle"@),
            self.handle < old(ctx).core.devices@.len() ==> (r matches Ok(w) && w@ == (if old(ctx).core.devices@[self.handle as int].has_camera {
                depth_stop_writes()
            } else {
                seq![]
            }) && !final(ctx).core.devices@[self.handle as int].depth_running),
    {
        ctx.core.stop_depth(self.handle)
    }

    /// The number of valid depth modes.
    pub fn depth_mode_count() -> (r: usize)
        ensures
            r == count_valid(depth_modes()),
    {
        num_depth_modes()
    }

    /// The depth mode at `index` of the table, or the first one where the
    /// table has no such entry.
    pub fn depth_mode(index: usize) -> (r: FrameMode)
        ensures
            r == depth_entry_or_first(index as int),
    {
        if index < NUM_DEPTH_MODE_ENTRIES {
            depth_mode_entry(index)
        } else {
            depth_mode_entry(0)
        }
    }

    /// The depth mode of the given resolution and format, or the first of
    /// the table where there is none.
    pub fn find_depth_mode(res: Resolution, fmt: DepthFormat) -> (r: FrameMode)
        ensures
            r == match spec_lookup_depth_mode(res, fmt) {
                Some(m) => m,
                None => depth_modes()[0],
            },
    {
        match lookup_depth_mode(res, fmt) {
            Some(m) => m,
            None => depth_mode_entry(0),
        }
    }

    /// Sets the depth mode of the device.
    pub fn set_depth_mode(&self, ctx: &mut Context, mode: FrameMode) -> (r: Result<(), Error>)
        ensures
            final(ctx).open_count == old(ctx).open_count,
            self.handle < old(ctx).core.devices@.len() ==> r is Ok && final(ctx).core.devices@[self.handle as int].depth_mode
                == mode,
            self.handle >= old(ctx).core.devices@.len() ==> r == Err::<(), Error>(Error::DeviceNotFound),
    {
        ctx.core.set_depth_mode(self.handle, mode)
    }
}

} // verus!
