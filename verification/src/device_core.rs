//! The state the driver keeps of its context and of each open device: log
//! settings, the subdevices to open, each device's frame modes and running
//! streams, and the decisions of starting, stopping and closing.

use vstd::prelude::*;

use crate::camera_usb::{
    RegisterPlan, depth_stream_writes, is_ir_format, stop_video_writes, video_stream_plan, video_stream_writes,
    video_streamable,
};
use crate::cameras::{
    bayer_rgb, bayer_shape_ok, bytes_needed, convert_bayer_to_rgb, convert_packed_to_16bit,
    convert_packed_to_8bit, convert_uyvy_to_rgb, packed_field, packed_top8, rgb_at, uyvy_last_pair,
    uyvy_pixel,
};
use crate::modes::{depth_mode_entry, depth_modes, video_mode_entry, video_modes};
use crate::{DeviceFlags, Error, FrameMode, Resolution, VideoFormat};

verus! {

/// Log level for driver messages, from most to least severe.
#[derive(Debug, Clone, Copy, PartialEq, Eq, Structural)]
pub enum LogLevel {
    Fatal,
    Error,
    Warning,
    Notice,
    Info,
    Debug,
    Spew,
}

impl LogLevel {
    /// The numeric severity of each level (0 for `Fatal` up to 6 for `Spew`).
    pub open spec fn spec_value(self) -> u8 {
        match self {
            LogLevel::Fatal => 0,
            LogLevel::Error => 1,
            LogLevel::Warning => 2,
            LogLevel::Notice => 3,
            LogLevel::Info => 4,
            LogLevel::Debug => 5,
            LogLevel::Spew => 6,
        }
    }

    pub fn value(self) -> (r: u8)
        ensures
            r == self.spec_value(),
    {
        match self {
            LogLevel::Fatal => 0,
            LogLevel::Error => 1,
            LogLevel::Warning => 2,
            LogLevel::Notice => 3,
            LogLevel::Info => 4,
            LogLevel::Debug => 5,
            LogLevel::Spew => 6,
        }
    }
}

/// Whether a message at `level` passes the threshold `threshold`: it does
/// when it is at most as verbose as the threshold.
pub fn should_log(level: LogLevel, threshold: LogLevel) -> (r: bool)
    ensures
        r == (level.spec_value() <= threshold.spec_value()),
{
    level.value() <= threshold.value()
}

/// What the driver tracks of one open device.
#[derive(Debug, Clone, Copy)]
pub struct DeviceState {
    pub has_camera: bool,
    pub has_motor: bool,
    pub dead: bool,
    pub video_running: bool,
    pub depth_running: bool,
    pub video_mode: FrameMode,
    pub depth_mode: FrameMode,
}

impl DeviceState {
    /// A device with no subdevice attached, nothing running, and the
    /// default modes: medium-resolution RGB video and packed 11-bit depth.
    pub fn new() -> (r: Self)
        ensures
            !r.has_camera,
            !r.has_motor,
            !r.dead,
            !r.video_running,
            !r.depth_running,
            r.video_mode == video_modes()[1],
            r.depth_mode == depth_modes()[2],
    {
        DeviceState {
            has_camera: false,
            has_motor: false,
            dead: false,
            video_running: false,
            depth_running: false,
            video_mode: video_mode_entry(1),
            depth_mode: depth_mode_entry(2),
        }
    }
}

/// The dimensions of a mode as the plan of a video stream reads them.
pub open spec fn usize_width(m: FrameMode) -> int {
    m.width as usize as int
}

pub open spec fn usize_height(m: FrameMode) -> int {
    m.height as usize as int
}

/// The frame sizes of a video stream in `mode` are computed without
/// overflow: the wire size in its format, from the dimensions read as
/// `usize`.
pub open spec fn video_sizes_fit(mode: FrameMode) -> bool {
    let w = usize_width(mode);
    let h = usize_height(mode);
    let f = mode.spec_video_format();
    if f == VideoFormat::Rgb || f == VideoFormat::Bayer {
        w * h <= usize::MAX
    } else if f == VideoFormat::YuvRgb || f == VideoFormat::YuvRaw {
        w * h * 2 <= usize::MAX
    } else {
        w * h * 10 <= usize::MAX
    }
}

/// Whether the frame sizes of a video stream in `mode` are computed
/// without overflow.
pub fn video_sizes_fit_check(mode: &FrameMode) -> (r: bool)
    ensures
        r == video_sizes_fit(*mode),
{
    let w = mode.width as usize;
    let h = mode.height as usize;
    let factor: usize = match mode.video_format() {
        VideoFormat::Rgb | VideoFormat::Bayer => 1,
        VideoFormat::YuvRgb | VideoFormat::YuvRaw => 2,
        _ => 10,
    };
    match w.checked_mul(h) {
        None => {
            assert(w * h * factor > usize::MAX) by (nonlinear_arith)
                requires
                    w * h > usize::MAX,
                    factor >= 1,
            ;
            false
        },
        Some(n) => n.checked_mul(factor).is_some(),
    }
}

/// Every mode of the tables, video or depth, can be the video mode of a
/// stream: its frame sizes are computed without overflow.
pub proof fn lemma_table_modes_fit()
    ensures
        forall|i: int| 0 <= i < video_modes().len() ==> #[trigger] video_sizes_fit(video_modes()[i]),
        forall|i: int| 0 <= i < depth_modes().len() ==> #[trigger] video_sizes_fit(depth_modes()[i]),
{
    assert forall|i: int| 0 <= i < video_modes().len() implies #[trigger] video_sizes_fit(video_modes()[i]) by {
        let m = video_modes()[i];
        assert(0 <= m.width <= 1280 && 0 <= m.height <= 1024);
        assert(usize_width(m) * usize_height(m) * 10 <= 1280 * 1024 * 10) by (nonlinear_arith)
            requires
                0 <= usize_width(m) <= 1280,
                0 <= usize_height(m) <= 1024,
        ;
    }
    assert forall|i: int| 0 <= i < depth_modes().len() implies #[trigger] video_sizes_fit(depth_modes()[i]) by {
        let m = depth_modes()[i];
        assert(0 <= m.width <= 640 && 0 <= m.height <= 480);
        assert(usize_width(m) * usize_height(m) * 10 <= 640 * 480 * 10) by (nonlinear_arith)
            requires
                0 <= usize_width(m) <= 640,
                0 <= usize_height(m) <= 480,
        ;
    }
}

/// The driver's context: its open devices (a device's handle is its
/// position), the log threshold and the subdevices to open.
pub struct ContextCore {
    pub devices: Vec<DeviceState>,
    pub log_level: LogLevel,
    pub enabled_subdevices: DeviceFlags,
}

/// The subdevices that can be selected: motor, camera and audio.
pub open spec fn subdevice_mask() -> u32 {
    7
}

/// Where the video stream of a device comes from and how it is started.
pub struct VideoStart {
    pub format: VideoFormat,
    pub resolution: Resolution,
    pub width: usize,
    pub height: usize,
    /// The size of a frame as the camera sends it.
    pub wire_frame_size: usize,
    /// The size of a converted frame: the mode's size in bytes.
    pub frame_bytes: usize,
    /// The number of 16-bit samples of a converted 10-bit infrared frame
    /// (0 for the other formats).
    pub frame_words: usize,
    /// The register writes that start the stream.
    pub registers: RegisterPlan,
}

/// Where the depth stream of a device comes from and how it is started.
pub struct DepthStart {
    /// The size of a frame as the camera sends it: 640 by 480 samples of
    /// 11 bits.
    pub wire_frame_size: usize,
    /// The register writes that start the stream.
    pub writes: Vec<(u16, u16)>,
}

/// The stream flag of video packets.
pub const VIDEO_STREAM_FLAG: u8 = 0x80;

/// The payload size of a video packet.
pub const VIDEO_PKT_DATA_SIZE: usize = 1908;

/// The stream flag of depth packets.
pub const DEPTH_STREAM_FLAG: u8 = 0x70;

/// The payload size of a depth packet.
pub const DEPTH_PKT_DATA_SIZE: usize = 1748;

/// The size of a depth frame as the camera sends it.
pub const DEPTH_WIRE_FRAME_SIZE: usize = 422400;

/// The size of a video frame in `format` of `w` by `h` pixels as the camera
/// sends it: one byte per pixel of Bayer data, two of YUV, ten bits of
/// infrared.
pub open spec fn wire_frame_size(format: VideoFormat, w: int, h: int) -> int {
    if format == VideoFormat::Rgb || format == VideoFormat::Bayer {
        w * h
    } else if format == VideoFormat::YuvRgb || format == VideoFormat::YuvRaw {
        w * h * 2
    } else {
        w * h * 10 / 8
    }
}

/// The register writes that follow the start of a video stream in `format`:
/// infrared also turns the projector's auto-cycle off.
pub open spec fn video_enable_writes(format: VideoFormat) -> Seq<(u16, u16)> {
    if is_ir_format(format) {
        seq![(0x0105u16, 0x00u16), (0x0005u16, 0x03u16)]
    } else {
        seq![(0x0005u16, 0x01u16)]
    }
}

/// All register writes that start a video stream in `format` at
/// `resolution`.
pub open spec fn video_start_writes(format: VideoFormat, resolution: Resolution) -> Seq<(u16, u16)> {
    if video_streamable(format, resolution) {
        video_stream_writes(format, resolution) + video_enable_writes(format)
    } else {
        video_stream_writes(format, resolution)
    }
}

/// The register writes that stop the video stream of a device with a
/// camera, made whatever each of them comes to.
pub open spec fn video_stop_writes() -> Seq<(u16, u16)> {
    seq![(0x0005u16, 0x00u16), (0x000cu16, 0x00u16), (0x0019u16, 0x00u16)]
}

/// The register writes that stop the depth stream of a device with a
/// camera, made whatever each of them comes to.
pub open spec fn depth_stop_writes() -> Seq<(u16, u16)> {
    seq![(0x0006u16, 0x00u16), (0x0012u16, 0x00u16)]
}

/// What closing a device does before it lets its subdevices go: the
/// register writes that stop the streams that were running.
pub struct CloseSteps {
    pub video_writes: Option<Vec<(u16, u16)>>,
    pub depth_writes: Option<Vec<(u16, u16)>>,
}

/// How a video stream starts in `mode`: its format (RGB for a depth mode),
/// resolution and dimensions, the frame sizes on the wire and after
/// conversion, and the register writes.
pub open spec fn video_start_of(v: VideoStart, mode: FrameMode) -> bool {
    let f = mode.spec_video_format();
    &&& v.format == f
    &&& v.resolution == mode.resolution
    &&& v.width == usize_width(mode)
    &&& v.height == usize_height(mode)
    &&& v.wire_frame_size == wire_frame_size(f, usize_width(mode), usize_height(mode))
    &&& v.frame_bytes == mode.bytes as usize
    &&& v.frame_words == if f == VideoFormat::Ir10Bit {
        usize_width(mode) * usize_height(mode)
    } else {
        0
    }
    &&& v.registers.writes@ == video_start_writes(f, mode.resolution)
    &&& (v.registers.outcome is Ok <==> video_streamable(f, mode.resolution))
    &&& (!video_streamable(f, mode.resolution) ==> v.registers.outcome == Err::<(), Error>(Error::InvalidMode))
}

/// What closing a device in state `d` stops: each running stream, with the
/// register writes of its stop (none without a camera).
pub open spec fn close_steps_of(steps: CloseSteps, d: DeviceState) -> bool {
    &&& (steps.video_writes is Some <==> d.video_running)
    &&& (steps.video_writes matches Some(w) ==> w@ == (if d.has_camera {
        video_stop_writes()
    } else {
        seq![]
    }))
    &&& (steps.depth_writes is Some <==> d.depth_running)
    &&& (steps.depth_writes matches Some(w) ==> w@ == (if d.has_camera {
        depth_stop_writes()
    } else {
        seq![]
    }))
}

/// A device after it was closed: no subdevice, nothing running.
pub open spec fn closed(d: DeviceState) -> DeviceState {
    DeviceState { has_camera: false, has_motor: false, video_running: false, depth_running: false, ..d }
}

fn push_pairs(v: &mut Vec<(u16, u16)>, pairs: &[(u16, u16)])
    ensures
        final(v)@ == old(v)@ + pairs@,
{
    let ghost start = v@;
    let mut i: usize = 0;
    while i < pairs.len()
        invariant
            i <= pairs@.len(),
            v@ == start + pairs@.take(i as int),
        decreases pairs@.len() - i,
    {
        v.push(pairs[i]);
        i = i + 1;
        assert(v@ =~= start + pairs@.take(i as int));
    }
    assert(pairs@.take(pairs@.len() as int) =~= pairs@);
}

impl ContextCore {
    /// A context with no device, logging notices and more severe messages,
    /// and opening the motor and the camera.
    pub fn new() -> (r: Self)
        ensures
            r.devices@.len() == 0,
            r.log_level == LogLevel::Notice,
            r.enabled_subdevices.0 == 3,
    {
        assert(1u32 | 2u32 == 3u32) by (bit_vector);
        ContextCore {
            devices: Vec::new(),
            log_level: LogLevel::Notice,
            enabled_subdevices: DeviceFlags::motor().union(DeviceFlags::camera()),
        }
    }

    pub fn set_log_level(&mut self, level: LogLevel)
        ensures
            final(self).log_level == level,
            final(self).devices@ == old(self).devices@,
            final(self).enabled_subdevices == old(self).enabled_subdevices,
    {
        self.log_level = level;
    }

    pub fn log_level(&self) -> (r: LogLevel)
        ensures
            r == self.log_level,
    {
        self.log_level
    }

    /// Whether a message at `level` is logged: when it is at most as
    /// verbose as the log level.
    pub fn logs(&self, level: LogLevel) -> (r: bool)
        ensures
            r == (level.spec_value() <= self.log_level.spec_value()),
    {
        should_log(level, self.log_level)
    }

    pub fn enabled_subdevices(&self) -> (r: DeviceFlags)
        ensures
            r == self.enabled_subdevices,
    {
        self.enabled_subdevices
    }

    /// Selects the subdevices to open; bits other than those of the motor,
    /// the camera and audio are dropped.
    pub fn select_subdevices(&mut self, subdevs: DeviceFlags)
        ensures
            final(self).enabled_subdevices.0 == subdevs.0 & subdevice_mask(),
            final(self).devices@ == old(self).devices@,
            final(self).log_level == old(self).log_level,
    {
        let mask = DeviceFlags::motor().union(DeviceFlags::camera()).union(DeviceFlags::audio());
        assert(1u32 | 2u32 | 4u32 == 7u32) by (bit_vector);
        self.enabled_subdevices = DeviceFlags(subdevs.0 & mask.0);
    }

    /// Records a device whose camera was opened, with its motor where one
    /// was found; its handle is its position.
    pub fn open_device(&mut self, has_motor: bool) -> (r: usize)
        ensures
            r == old(self).devices@.len(),
            final(self).devices@.len() == old(self).devices@.len() + 1,
            forall|i: int| 0 <= i < r ==> #[trigger] final(self).devices@[i] == old(self).devices@[i],
            final(self).devices@[r as int].has_camera,
            final(self).devices@[r as int].has_motor == has_motor,
            !final(self).devices@[r as int].video_running,
            !final(self).devices@[r as int].depth_running,
            final(self).devices@[r as int].video_mode == video_modes()[1],
            final(self).devices@[r as int].depth_mode == depth_modes()[2],
            final(self).log_level == old(self).log_level,
            final(self).enabled_subdevices == old(self).enabled_subdevices,
    {
        let mut state = DeviceState::new();
        state.has_camera = true;
        state.has_motor = has_motor;
        self.devices.push(state);
        self.devices.len() - 1
    }

    /// The state of a device, if its handle is one.
    pub fn device_state(&self, handle: usize) -> (r: Option<DeviceState>)
        ensures
            handle < self.devices@.len() ==> r == Some(self.devices@[handle as int]),
            handle >= self.devices@.len() ==> r is None,
    {
        if handle < self.devices.len() {
            Some(self.devices[handle])
        } else {
            None
        }
    }

    fn update(&mut self, handle: usize, state: DeviceState)
        requires
            handle < old(self).devices@.len(),
        ensures
            final(self).devices@ == old(self).devices@.update(handle as int, state),
            final(self).log_level == old(self).log_level,
            final(self).enabled_subdevices == old(self).enabled_subdevices,
    {
        self.devices.set(handle, state);
    }

    /// Sets the video mode of a device.
    pub fn set_video_mode(&mut self, handle: usize, mode: FrameMode) -> (r: Result<(), Error>)
        ensures
            handle < old(self).devices@.len() ==> r is Ok && final(self).devices@ == old(self).devices@.update(
                handle as int,
                DeviceState { video_mode: mode, ..old(self).devices@[handle as int] },
            ),
            handle >= old(self).devices@.len() ==> r == Err::<(), Error>(Error::DeviceNotFound)
                && final(self).devices@ == old(self).devices@,
            final(self).log_level == old(self).log_level,
            final(self).enabled_subdevices == old(self).enabled_subdevices,
    {
        if handle >= self.devices.len() {
            return Err(Error::DeviceNotFound);
        }
        let mut state = self.devices[handle];
        state.video_mode = mode;
        self.update(handle, state);
        Ok(())
    }

    /// Sets the depth mode of a device.
    pub fn set_depth_mode(&mut self, handle: usize, mode: FrameMode) -> (r: Result<(), Error>)
        ensures
            handle < old(self).devices@.len() ==> r is Ok && final(self).devices@ == old(self).devices@.update(
                handle as int,
                DeviceState { depth_mode: mode, ..old(self).devices@[handle as int] },
            ),
            handle >= old(self).devices@.len() ==> r == Err::<(), Error>(Error::DeviceNotFound)
                && final(self).devices@ == old(self).devices@,
            final(self).log_level == old(self).log_level,
            final(self).enabled_subdevices == old(self).enabled_subdevices,
    {
        if handle >= self.devices.len() {
            return Err(Error::DeviceNotFound);
        }
        let mut state = self.devices[handle];
        state.depth_mode = mode;
        self.update(handle, state);
        Ok(())
    }

    /// How the video stream of a device starts, in its video mode: the
    /// frame sizes on the wire and after conversion, and the register
    /// writes.
    pub fn start_video(&self, handle: usize) -> (r: Result<VideoStart, Error>)
        requires
            handle < self.devices@.len() && self.devices@[handle as int].has_camera ==> video_sizes_fit(
                self.devices@[handle as int].video_mode,
            ),
        ensures
            handle >= self.devices@.len() ==> (r matches Err(Error::Usb(m)) && m@ == "invalid handle"@),
            handle < self.devices@.len() && !self.devices@[handle as int].has_camera ==> (r matches Err(Error::Usb(m)) && m@ == "no camera"@),
            handle < self.devices@.len() && self.devices@[handle as int].has_camera ==> (r matches Ok(v)
                && video_start_of(v, self.devices@[handle as int].video_mode)),
    {
        if handle >= self.devices.len() {
            return Err(Error::Usb("invalid handle".to_owned()));
        }
        let state = self.devices[handle];
        if !state.has_camera {
            return Err(Error::Usb("no camera".to_owned()));
        }
        let mode = state.video_mode;
        let format = mode.video_format();
        let resolution = mode.resolution();
        let width = mode.width() as usize;
        let height = mode.height() as usize;
        assert(width * height <= width * height * 10) by (nonlinear_arith);
        assert(width * height * 2 <= width * height * 10) by (nonlinear_arith);
        let wire_frame_size = match format {
            VideoFormat::Rgb | VideoFormat::Bayer => width * height,
            VideoFormat::YuvRgb | VideoFormat::YuvRaw => width * height * 2,
            VideoFormat::Ir8Bit | VideoFormat::Ir10Bit | VideoFormat::Ir10BitPacked => width * height * 10 / 8,
        };
        let frame_words = match format {
            VideoFormat::Ir10Bit => width * height,
            _ => 0,
        };
        let mut registers = video_stream_plan(format, resolution);
        if registers.outcome.is_ok() {
            match format {
                VideoFormat::Ir8Bit | VideoFormat::Ir10Bit | VideoFormat::Ir10BitPacked => {
                    push_pairs(&mut registers.writes, &[(0x0105u16, 0x00u16), (0x0005u16, 0x03u16)]);
                },
                _ => {
                    push_pairs(&mut registers.writes, &[(0x0005u16, 0x01u16)]);
                },
            }
        }
        assert(registers.writes@ =~= video_start_writes(format, resolution));
        Ok(
            VideoStart {
                format,
                resolution,
                width,
                height,
                wire_frame_size,
                frame_bytes: mode.bytes() as usize,
                frame_words,
                registers,
            },
        )
    }

    /// Records that the video stream of a device started.
    pub fn video_started(&mut self, handle: usize)
        ensures
            handle < old(self).devices@.len() ==> final(self).devices@ == old(self).devices@.update(
                handle as int,
                DeviceState { video_running: true, ..old(self).devices@[handle as int] },
            ),
            handle >= old(self).devices@.len() ==> final(self).devices@ == old(self).devices@,
            final(self).log_level == old(self).log_level,
            final(self).enabled_subdevices == old(self).enabled_subdevices,
    {
        if handle < self.devices.len() {
            let mut state = self.devices[handle];
            state.video_running = true;
            self.update(handle, state);
        }
    }

    /// Stops the video stream of a device: the register writes to make,
    /// none where the device has no camera; the stream is then no longer
    /// running.
    pub fn stop_video(&mut self, handle: usize) -> (r: Result<Vec<(u16, u16)>, Error>)
        ensures
            handle >= old(self).devices@.len() ==> (r matches Err(Error::Usb(m)) && m@ == "invalid handle"@
                && final(self).devices@ == old(self).devices@),
            handle < old(self).devices@.len() ==> (r matches Ok(w) && w@ == (if old(self).devices@[handle as int].has_camera {
                video_stop_writes()
            } else {
                seq![]
            }) && final(self).devices@ == old(self).devices@.update(
                handle as int,
                DeviceState { video_running: false, ..old(self).devices@[handle as int] },
            )),
            final(self).log_level == old(self).log_level,
            final(self).enabled_subdevices == old(self).enabled_subdevices,
    {
        if handle >= self.devices.len() {
            return Err(Error::Usb("invalid handle".to_owned()));
        }
        let mut state = self.devices[handle];
        let mut writes: Vec<(u16, u16)> = Vec::new();
        if state.has_camera {
            push_pairs(&mut writes, &[(0x0005u16, 0x00u16), (0x000cu16, 0x00u16), (0x0019u16, 0x00u16)]);
        }
        assert(writes@ =~= (if state.has_camera {
            video_stop_writes()
        } else {
            seq![]
        }));
        state.video_running = false;
        self.update(handle, state);
        Ok(writes)
    }

    /// How the depth stream of a device starts.
    pub fn start_depth(&self, handle: usize) -> (r: Result<DepthStart, Error>)
        ensures
            handle >= self.devices@.len() ==> (r matches Err(Error::Usb(m)) && m@ == "invalid handle"@),
            handle < self.devices@.len() && !self.devices@[handle as int].has_camera ==> (r matches Err(Error::Usb(m)) && m@ == "no camera"@),
            handle < self.devices@.len() && self.devices@[handle as int].has_camera ==> (r matches Ok(d)
                && d.wire_frame_size == DEPTH_WIRE_FRAME_SIZE && d.writes@ == depth_stream_writes(crate::DepthFormat::Bit11)),
    {
        if handle >= self.devices.len() {
            return Err(Error::Usb("invalid handle".to_owned()));
        }
        if !self.devices[handle].has_camera {
            return Err(Error::Usb("no camera".to_owned()));
        }
        let mut writes: Vec<(u16, u16)> = Vec::new();
        push_pairs(
            &mut writes,
            &[
                (0x0105u16, 0x00u16),
                (0x0006u16, 0x00u16),
                (0x0012u16, 0x03u16),
                (0x0013u16, 0x01u16),
                (0x0014u16, 0x1eu16),
                (0x0006u16, 0x02u16),
                (0x0017u16, 0x00u16),
            ],
        );
        assert(writes@ =~= depth_stream_writes(crate::DepthFormat::Bit11));
        Ok(DepthStart { wire_frame_size: DEPTH_WIRE_FRAME_SIZE, writes })
    }

    /// Records that the depth stream of a device started.
    pub fn depth_started(&mut self, handle: usize)
        ensures
            handle < old(self).devices@.len() ==> final(self).devices@ == old(self).devices@.update(
                handle as int,
                DeviceState { depth_running: true, ..old(self).devices@[handle as int] },
            ),
            handle >= old(self).devices@.len() ==> final(self).devices@ == old(self).devices@,
            final(self).log_level == old(self).log_level,
            final(self).enabled_subdevices == old(self).enabled_subdevices,
    {
        if handle < self.devices.len() {
            let mut state = self.devices[handle];
            state.depth_running = true;
            self.update(handle, state);
        }
    }

    /// Stops the depth stream of a device: the register writes to make,
    /// none where the device has no camera; the stream is then no longer
    /// running.
    pub fn stop_depth(&mut self, handle: usize) -> (r: Result<Vec<(u16, u16)>, Error>)
        ensures
            handle >= old(self).devices@.len() ==> (r matches Err(Error::Usb(m)) && m@ == "invalid handle"@
                && final(self).devices@ == old(self).devices@),
            handle < old(self).devices@.len() ==> (r matches Ok(w) && w@ == (if old(self).devices@[handle as int].has_camera {
                depth_stop_writes()
            } else {
                seq![]
            }) && final(self).devices@ == old(self).devices@.update(
                handle as int,
                DeviceState { depth_running: false, ..old(self).devices@[handle as int] },
            )),
            final(self).log_level == old(self).log_level,
            final(self).enabled_subdevices == old(self).enabled_subdevices,
    {
        if handle >= self.devices.len() {
            return Err(Error::Usb("invalid handle".to_owned()));
        }
        let mut state = self.devices[handle];
        let mut writes: Vec<(u16, u16)> = Vec::new();
        if state.has_camera {
            push_pairs(&mut writes, &[(0x0006u16, 0x00u16), (0x0012u16, 0x00u16)]);
        }
        assert(writes@ =~= (if state.has_camera {
            depth_stop_writes()
        } else {
            seq![]
        }));
        state.depth_running = false;
        self.update(handle, state);
        Ok(writes)
    }

    /// Closes a device: stops the streams that run (the register writes of
    /// each stop), then lets its camera and motor go.
    pub fn close_device(&mut self, handle: usize) -> (r: Result<CloseSteps, Error>)
        ensures
            handle >= old(self).devices@.len() ==> (r matches Err(Error::Usb(m)) && m@
                == "invalid device handle"@ && final(self).devices@ == old(self).devices@),
            handle < old(self).devices@.len() ==> (r matches Ok(steps) && close_steps_of(
                steps,
                old(self).devices@[handle as int],
            ) && final(self).devices@ == old(self).devices@.update(
                handle as int,
                closed(old(self).devices@[handle as int]),
            )),
            final(self).log_level == old(self).log_level,
            final(self).enabled_subdevices == old(self).enabled_subdevices,
    {
        if handle >= self.devices.len() {
            return Err(Error::Usb("invalid device handle".to_owned()));
        }
        let ghost d = self.devices@[handle as int];
        let state = self.devices[handle];
        let video_writes = if state.video_running {
            match self.stop_video(handle) {
                Ok(w) => Some(w),
                Err(e) => {
                    return Err(e);
                },
            }
        } else {
            None
        };
        let depth_writes = if state.depth_running {
            match self.stop_depth(handle) {
                Ok(w) => Some(w),
                Err(e) => {
                    return Err(e);
                },
            }
        } else {
            None
        };
        let mut after = self.devices[handle];
        after.has_camera = false;
        after.has_motor = false;
        self.update(handle, after);
        assert(self.devices@ =~= old(self).devices@.update(handle as int, closed(d)));
        Ok(CloseSteps { video_writes, depth_writes })
    }
}

/// What becomes of a raw video frame.
#[derive(Debug, Clone, Copy, PartialEq, Eq, Structural)]
pub enum VideoFrame {
    /// The converted frame is the first bytes of the byte buffer.
    Bytes,
    /// The converted frame is the first samples of the 16-bit buffer.
    Words,
    /// The frame is delivered as it came.
    Raw,
    /// The frame or a buffer is too small; nothing is delivered.
    Dropped,
}

/// The formats converted before delivery: RGB from Bayer data, RGB from
/// YUV, and 8-bit and 16-bit infrared from 10-bit packed samples.
pub open spec fn converted_format(format: VideoFormat) -> bool {
    format == VideoFormat::Rgb || format == VideoFormat::YuvRgb || format == VideoFormat::Ir8Bit || format
        == VideoFormat::Ir10Bit
}

/// The frame and the buffers are large enough for the conversion of a
/// frame of `w` by `h` pixels.
pub open spec fn frame_fits(format: VideoFormat, raw: nat, bytes: nat, words: nat, w: int, h: int) -> bool {
    let n = w * h;
    if format == VideoFormat::Rgb {
        raw >= n && bytes >= n * 3
    } else if format == VideoFormat::YuvRgb {
        raw >= n * 2 && bytes >= n * 3
    } else if format == VideoFormat::Ir8Bit {
        raw >= n * 10 / 8 && bytes >= n
    } else {
        raw >= n * 10 / 8 && words >= n
    }
}

/// What the conversions need beyond `frame_fits`: Bayer data of exactly
/// one frame into an RGB buffer of exactly one frame, of at least two rows
/// and columns; YUV and infrared data of whole pixel pairs and samples.
pub open spec fn frame_convertible(format: VideoFormat, raw: nat, bytes: nat, w: int, h: int) -> bool {
    let n = w * h;
    if format == VideoFormat::Rgb {
        raw == n && bytes == n * 3 && bayer_shape_ok(w, h)
    } else if format == VideoFormat::YuvRgb {
        w > 0 && h > 0 ==> 2 * uyvy_last_pair(w, h) + 4 <= raw && 3 * uyvy_last_pair(w, h) + 6 <= bytes
    } else {
        bytes_needed(10, n as nat) <= raw
    }
}

/// The sizes that the conversion of a frame in `format` computes fit in
/// `usize`: three bytes a pixel for RGB, ten bits a pixel for infrared;
/// formats delivered as they came compute nothing.
pub open spec fn conversion_sizes_fit(format: VideoFormat, width: int, height: int) -> bool {
    if format == VideoFormat::Rgb || format == VideoFormat::YuvRgb {
        width * height * 3 <= usize::MAX
    } else if format == VideoFormat::Ir8Bit || format == VideoFormat::Ir10Bit {
        width * height * 10 <= usize::MAX
    } else {
        true
    }
}

/// Whether the sizes that the conversion of a frame in `format` computes
/// fit in `usize`.
pub fn conversion_sizes_fit_check(format: VideoFormat, width: usize, height: usize) -> (r: bool)
    ensures
        r == conversion_sizes_fit(format, width as int, height as int),
{
    let factor: usize = match format {
        VideoFormat::Rgb | VideoFormat::YuvRgb => 3,
        VideoFormat::Ir8Bit | VideoFormat::Ir10Bit => 10,
        _ => {
            return true;
        },
    };
    match width.checked_mul(height) {
        None => {
            assert(width * height * factor > usize::MAX) by (nonlinear_arith)
                requires
                    width * height > usize::MAX,
                    factor >= 1,
            ;
            false
        },
        Some(n) => n.checked_mul(factor).is_some(),
    }
}

/// Whether a frame of `raw_len` bytes can be converted into buffers of
/// `bytes_len` bytes and `words_len` samples: it can where the conversion
/// does not take place, or where what `frame_fits` asks comes with what
/// `frame_convertible` asks.
pub fn video_frame_convertible(
    format: VideoFormat,
    raw_len: usize,
    bytes_len: usize,
    words_len: usize,
    width: usize,
    height: usize,
) -> (r: bool)
    requires
        conversion_sizes_fit(format, width as int, height as int),
    ensures
        r == (converted_format(format) && frame_fits(
            format,
            raw_len as nat,
            bytes_len as nat,
            words_len as nat,
            width as int,
            height as int,
        ) ==> frame_convertible(format, raw_len as nat, bytes_len as nat, width as int, height as int)),
{
    match format {
        VideoFormat::Rgb => {
            let n = width * height;
            !(raw_len >= n && bytes_len >= n * 3) || (raw_len == n && bytes_len == n * 3 && (height == 0 || (
            height >= 2 && (width == 0 || width >= 2))))
        },
        VideoFormat::YuvRgb => {
            let n = width * height;
            if !(raw_len >= n * 2 && bytes_len >= n * 3) || width == 0 || height == 0 {
                true
            } else {
                assert(width * (height - 1) + width == width * height) by (nonlinear_arith)
                    requires
                        height >= 1,
                ;
                assert(2 * ((width - 1) / 2) <= width - 1);
                let last_pair = width * (height - 1) + 2 * ((width - 1) / 2);
                assert(last_pair <= n);
                raw_len >= 4 && last_pair <= (raw_len - 4) / 2 && bytes_len >= 6 && last_pair <= (bytes_len - 6)
                    / 3
            }
        },
        VideoFormat::Ir8Bit | VideoFormat::Ir10Bit => {
            let n = width * height;
            let fits = if format == VideoFormat::Ir8Bit {
                raw_len >= n * 10 / 8 && bytes_len >= n
            } else {
                raw_len >= n * 10 / 8 && words_len >= n
            };
            let needed = n * 10 / 8 + if n * 10 % 8 != 0 {
                1
            } else {
                0
            };
            assert(needed == bytes_needed(10, n as nat));
            !fits || needed <= raw_len
        },
        _ => true,
    }
}

/// Converts a raw video frame of `width` by `height` pixels in `format` for
/// delivery: Bayer data to RGB, YUV to RGB, and 10-bit infrared to 8-bit or
/// 16-bit samples; the other formats are delivered as they came. A frame or
/// buffer too small for the conversion is dropped.
pub fn process_video_frame(
    format: VideoFormat,
    raw: &[u8],
    bytes: &mut [u8],
    words: &mut [u16],
    width: usize,
    height: usize,
) -> (r: VideoFrame)
    requires
        conversion_sizes_fit(format, width as int, height as int),
        converted_format(format) && frame_fits(
            format,
            raw@.len(),
            old(bytes)@.len(),
            old(words)@.len(),
            width as int,
            height as int,
        ) ==> frame_convertible(format, raw@.len(), old(bytes)@.len(), width as int, height as int),
    ensures
        r == (if !converted_format(format) {
            VideoFrame::Raw
        } else if !frame_fits(format, raw@.len(), old(bytes)@.len(), old(words)@.len(), width as int, height as int) {
            VideoFrame::Dropped
        } else if format == VideoFormat::Ir10Bit {
            VideoFrame::Words
        } else {
            VideoFrame::Bytes
        }),
        final(bytes)@.len() == old(bytes)@.len(),
        final(words)@.len() == old(words)@.len(),
        r != VideoFrame::Bytes ==> final(bytes)@ == old(bytes)@,
        r != VideoFrame::Words ==> final(words)@ == old(words)@,
        r == VideoFrame::Bytes && format == VideoFormat::Rgb ==> forall|q: int|
            0 <= q < width * height ==> rgb_at(
                final(bytes)@,
                q,
                #[trigger] bayer_rgb(raw@, width as int, height as int, q % width as int, q / width as int),
            ),
        r == VideoFrame::Bytes && format == VideoFormat::YuvRgb ==> forall|q: int|
            0 <= q < width * height ==> rgb_at(final(bytes)@, q, #[trigger] uyvy_pixel(raw@, width as int, q)),
        r == VideoFrame::Bytes && format == VideoFormat::Ir8Bit ==> forall|i: int|
            0 <= i < width * height ==> #[trigger] final(bytes)@[i] == packed_top8(raw@, 10, i as nat),
        r == VideoFrame::Words ==> forall|i: int|
            0 <= i < width * height ==> #[trigger] final(words)@[i] == packed_field(raw@, 10, i as nat),
{
    match format {
        VideoFormat::Rgb => {
            let n = width * height;
            if raw.len() >= n && bytes.len() >= n * 3 {
                convert_bayer_to_rgb(raw, bytes, width, height);
                VideoFrame::Bytes
            } else {
                VideoFrame::Dropped
            }
        },
        VideoFormat::YuvRgb => {
            let n = width * height;
            if raw.len() >= n * 2 && bytes.len() >= n * 3 {
                convert_uyvy_to_rgb(raw, bytes, width, height);
                VideoFrame::Bytes
            } else {
                VideoFrame::Dropped
            }
        },
        VideoFormat::Ir8Bit => {
            let n = width * height;
            if raw.len() >= n * 10 / 8 && bytes.len() >= n {
                convert_packed_to_8bit(raw, bytes, 10, n);
                VideoFrame::Bytes
            } else {
                VideoFrame::Dropped
            }
        },
        VideoFormat::Ir10Bit => {
            let n = width * height;
            if raw.len() >= n * 10 / 8 && words.len() >= n {
                convert_packed_to_16bit(raw, words, 10, n);
                VideoFrame::Words
            } else {
                VideoFrame::Dropped
            }
        },
        _ => VideoFrame::Raw,
    }
}

} // verus!
