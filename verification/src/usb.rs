//! Recognising the Kinect's USB devices and choosing among them: which
//! devices are cameras, motors and audio devices, the camera of a given
//! index, and the motor or audio device that belongs to a camera.
//!
//! Enumeration itself is done by the caller, which describes each device on
//! the bus by a `UsbDeviceInfo`.

use vstd::prelude::*;

verus! {

pub const VID_MICROSOFT: u16 = 0x045e;

pub const PID_NUI_AUDIO: u16 = 0x02ad;

pub const PID_NUI_CAMERA: u16 = 0x02ae;

pub const PID_NUI_MOTOR: u16 = 0x02b0;

pub const PID_K4W_CAMERA: u16 = 0x02bf;

pub const PID_K4W_AUDIO: u16 = 0x02be;

pub const PID_K4W_AUDIO_ALT_1: u16 = 0x02c3;

pub const PID_K4W_AUDIO_ALT_2: u16 = 0x02bb;

pub const PID_KV2_CAMERA: u16 = 0x02d9;

/// Endpoint of the depth stream.
pub const EP_DEPTH: u8 = 0x82;

/// Endpoint of the video stream.
pub const EP_VIDEO: u8 = 0x81;

/// Transfers in flight.
pub const NUM_XFERS: i32 = 15;

/// Packets per transfer.
pub const PKTS_PER_XFER: i32 = 16;

/// Depth packet buffer size.
pub const DEPTH_PKTBUF: i32 = 1760;

/// Video packet buffer size.
pub const VIDEO_PKTBUF: i32 = 1920;

/// What a device's descriptor tells about it.
#[derive(Debug, Clone, Copy)]
pub struct DeviceDescriptor {
    pub vendor_id: u16,
    pub product_id: u16,
    pub serial_number_string_index: Option<u8>,
}

impl DeviceDescriptor {
    pub fn vendor_id(&self) -> (r: u16)
        ensures
            r == self.vendor_id,
    {
        self.vendor_id
    }

    pub fn product_id(&self) -> (r: u16)
        ensures
            r == self.product_id,
    {
        self.product_id
    }

    pub fn serial_number_string_index(&self) -> (r: Option<u8>)
        ensures
            r == self.serial_number_string_index,
    {
        self.serial_number_string_index
    }
}

/// A device on the bus: its descriptor, where it could be read, and where
/// it is attached.
#[derive(Debug, Clone, Copy)]
pub struct UsbDeviceInfo {
    pub descriptor: Option<DeviceDescriptor>,
    pub bus_number: u8,
    pub port_number: u8,
}

/// The kinds of Kinect device.
#[derive(Debug, Clone, Copy, PartialEq, Eq, Structural)]
pub enum DeviceKind {
    Camera,
    Motor,
    Audio,
}

/// A Kinect camera: the Xbox 360 model or the one for Windows.
pub open spec fn spec_is_camera(d: DeviceDescriptor) -> bool {
    d.vendor_id == VID_MICROSOFT && (d.product_id == PID_NUI_CAMERA || d.product_id == PID_K4W_CAMERA)
}

/// The Kinect tilt motor.
pub open spec fn spec_is_motor(d: DeviceDescriptor) -> bool {
    d.vendor_id == VID_MICROSOFT && d.product_id == PID_NUI_MOTOR
}

/// A Kinect audio device, of any of its known product ids.
pub open spec fn spec_is_audio(d: DeviceDescriptor) -> bool {
    d.vendor_id == VID_MICROSOFT && (d.product_id == PID_NUI_AUDIO || d.product_id == PID_K4W_AUDIO
        || d.product_id == PID_K4W_AUDIO_ALT_1 || d.product_id == PID_K4W_AUDIO_ALT_2)
}

/// A descriptor of the given kind.
pub open spec fn spec_is_kind(d: DeviceDescriptor, kind: DeviceKind) -> bool {
    match kind {
        DeviceKind::Camera => spec_is_camera(d),
        DeviceKind::Motor => spec_is_motor(d),
        DeviceKind::Audio => spec_is_audio(d),
    }
}

pub fn is_camera(desc: &DeviceDescriptor) -> (r: bool)
    ensures
        r == spec_is_camera(*desc),
{
    desc.vendor_id() == VID_MICROSOFT && (desc.product_id() == PID_NUI_CAMERA || desc.product_id()
        == PID_K4W_CAMERA)
}

pub fn is_motor(desc: &DeviceDescriptor) -> (r: bool)
    ensures
        r == spec_is_motor(*desc),
{
    desc.vendor_id() == VID_MICROSOFT && desc.product_id() == PID_NUI_MOTOR
}

pub fn is_audio(desc: &DeviceDescriptor) -> (r: bool)
    ensures
        r == spec_is_audio(*desc),
{
    desc.vendor_id() == VID_MICROSOFT && (desc.product_id() == PID_NUI_AUDIO || desc.product_id()
        == PID_K4W_AUDIO || desc.product_id() == PID_K4W_AUDIO_ALT_1 || desc.product_id()
        == PID_K4W_AUDIO_ALT_2)
}

pub fn is_kinect(desc: &DeviceDescriptor) -> (r: bool)
    ensures
        r == (spec_is_camera(*desc) || spec_is_motor(*desc) || spec_is_audio(*desc)),
{
    desc.vendor_id() == VID_MICROSOFT && (is_camera(desc) || is_motor(desc) || is_audio(desc))
}

/// Whether a descriptor is of the given kind.
pub fn is_kind(desc: &DeviceDescriptor, kind: DeviceKind) -> (r: bool)
    ensures
        r == spec_is_kind(*desc, kind),
{
    match kind {
        DeviceKind::Camera => is_camera(desc),
        DeviceKind::Motor => is_motor(desc),
        DeviceKind::Audio => is_audio(desc),
    }
}

/// A device whose descriptor could be read and is of the given kind.
pub open spec fn info_is_kind(d: UsbDeviceInfo, kind: DeviceKind) -> bool {
    d.descriptor matches Some(desc) && spec_is_kind(desc, kind)
}

/// The number of devices of the given kind.
pub open spec fn count_kind(devs: Seq<UsbDeviceInfo>, kind: DeviceKind) -> nat
    decreases devs.len(),
{
    if devs.len() == 0 {
        0
    } else {
        count_kind(devs.drop_last(), kind) + if info_is_kind(devs.last(), kind) {
            1nat
        } else {
            0nat
        }
    }
}

/// The position of the first device that satisfies `p`.
pub open spec fn first_index(devs: Seq<UsbDeviceInfo>, p: spec_fn(UsbDeviceInfo) -> bool) -> Option<int>
    decreases devs.len(),
{
    if devs.len() == 0 {
        None
    } else {
        match first_index(devs.drop_last(), p) {
            Some(k) => Some(k),
            None => if p(devs.last()) {
                Some(devs.len() - 1)
            } else {
                None
            },
        }
    }
}

/// The device of the given kind that belongs to a camera on bus `bus` at
/// port `port`: the first on the same bus and port (where the port is
/// known, that is not 0), else the first on the same bus, else the first
/// anywhere.
pub open spec fn sibling_choice(devs: Seq<UsbDeviceInfo>, bus: u8, port: u8, kind: DeviceKind) -> Option<int> {
    match first_index(devs, same_port(kind, bus, port)) {
        Some(k) => Some(k),
        None => match first_index(devs, same_bus(kind, bus)) {
            Some(k) => Some(k),
            None => first_index(devs, of_kind(kind)),
        },
    }
}

/// A device of the given kind on bus `bus` at port `port`, where the port
/// is known (not 0).
pub open spec fn same_port(kind: DeviceKind, bus: u8, port: u8) -> spec_fn(UsbDeviceInfo) -> bool {
    |d: UsbDeviceInfo| info_is_kind(d, kind) && d.bus_number == bus && port != 0 && d.port_number == port
}

/// A device of the given kind on bus `bus`.
pub open spec fn same_bus(kind: DeviceKind, bus: u8) -> spec_fn(UsbDeviceInfo) -> bool {
    |d: UsbDeviceInfo| info_is_kind(d, kind) && d.bus_number == bus
}

/// A device of the given kind.
pub open spec fn of_kind(kind: DeviceKind) -> spec_fn(UsbDeviceInfo) -> bool {
    |d: UsbDeviceInfo| info_is_kind(d, kind)
}

proof fn lemma_first_index_prefix(devs: Seq<UsbDeviceInfo>, p: spec_fn(UsbDeviceInfo) -> bool, j: int)
    requires
        0 <= j <= devs.len(),
        first_index(devs.take(j), p) is Some,
    ensures
        first_index(devs, p) == first_index(devs.take(j), p),
    decreases devs.len(),
{
    if j == devs.len() {
        assert(devs.take(j) =~= devs);
    } else {
        assert(devs.drop_last().take(j) =~= devs.take(j));
        lemma_first_index_prefix(devs.drop_last(), p, j);
    }
}

proof fn lemma_first_index_step(devs: Seq<UsbDeviceInfo>, p: spec_fn(UsbDeviceInfo) -> bool, i: int)
    requires
        0 <= i < devs.len(),
    ensures
        first_index(devs.take(i + 1), p) == match first_index(devs.take(i), p) {
            Some(k) => Some(k),
            None => if p(devs[i]) {
                Some(i)
            } else {
                None
            },
        },
{
    assert(devs.take(i + 1).drop_last() =~= devs.take(i));
}

/// The number of Kinect cameras among the devices.
pub fn count_cameras(devices: &[UsbDeviceInfo]) -> (r: usize)
    ensures
        r == count_kind(devices@, DeviceKind::Camera),
{
    let mut count: usize = 0;
    let mut i: usize = 0;
    while i < devices.len()
        invariant
            i <= devices@.len(),
            count == count_kind(devices@.take(i as int), DeviceKind::Camera),
            count <= i,
        decreases devices@.len() - i,
    {
        assert(devices@.take(i + 1).drop_last() =~= devices@.take(i as int));
        if let Some(desc) = &devices[i].descriptor {
            if is_camera(desc) {
                count = count + 1;
            }
        }
        i = i + 1;
    }
    assert(devices@.take(devices@.len() as int) =~= devices@);
    count
}

/// The position of the camera of the given index, counting cameras in the
/// order of the devices.
pub fn find_camera_by_index(devices: &[UsbDeviceInfo], index: usize) -> (r: Option<usize>)
    ensures
        r matches Some(p) ==> p < devices@.len() && info_is_kind(devices@[p as int], DeviceKind::Camera)
            && count_kind(devices@.take(p as int), DeviceKind::Camera) == index,
        r is None ==> count_kind(devices@, DeviceKind::Camera) <= index,
{
    let mut cam_idx: usize = 0;
    let mut i: usize = 0;
    while i < devices.len()
        invariant
            i <= devices@.len(),
            cam_idx == count_kind(devices@.take(i as int), DeviceKind::Camera),
            cam_idx <= index,
        decreases devices@.len() - i,
    {
        assert(devices@.take(i + 1).drop_last() =~= devices@.take(i as int));
        if let Some(desc) = &devices[i].descriptor {
            if is_camera(desc) {
                if cam_idx == index {
                    return Some(i);
                }
                cam_idx = cam_idx + 1;
            }
        }
        i = i + 1;
    }
    assert(devices@.take(devices@.len() as int) =~= devices@);
    None
}

/// The device of the given kind that belongs to a camera on bus
/// `camera_bus` at port `camera_port`, as `sibling_choice` describes.
pub fn find_sibling(devices: &[UsbDeviceInfo], camera_bus: u8, camera_port: u8, kind: DeviceKind) -> (r: Option<
    usize,
>)
    ensures
        opt_int(r) == sibling_choice(devices@, camera_bus, camera_port, kind),
{
    let ghost exact = same_port(kind, camera_bus, camera_port);
    let ghost bus = same_bus(kind, camera_bus);
    let ghost any = of_kind(kind);
    let mut same: Option<usize> = None;
    let mut first: Option<usize> = None;
    let mut i: usize = 0;
    while i < devices.len()
        invariant
            i <= devices@.len(),
            exact == same_port(kind, camera_bus, camera_port),
            bus == same_bus(kind, camera_bus),
            any == of_kind(kind),
            first_index(devices@.take(i as int), exact) is None,
            opt_int(same) == first_index(devices@.take(i as int), bus),
            opt_int(first) == first_index(devices@.take(i as int), any),
        decreases devices@.len() - i,
    {
        proof {
            lemma_first_index_step(devices@, exact, i as int);
            lemma_first_index_step(devices@, bus, i as int);
            lemma_first_index_step(devices@, any, i as int);
        }
        let d = devices[i];
        if let Some(desc) = &d.descriptor {
            if is_kind(desc, kind) {
                if first.is_none() {
                    first = Some(i);
                }
                if d.bus_number == camera_bus {
                    if same.is_none() {
                        same = Some(i);
                    }
                    if camera_port != 0 && d.port_number == camera_port {
                        proof {
                            assert(d == devices@[i as int]);
                            assert(info_is_kind(d, kind));
                            assert(exact(devices@[i as int]));
                            assert(first_index(devices@.take(i + 1), exact) == Some(i as int));
                            lemma_first_index_prefix(devices@, exact, i + 1);
                        }
                        return Some(i);
                    }
                }
            }
        }
        i = i + 1;
    }
    assert(devices@.take(devices@.len() as int) =~= devices@);
    if same.is_some() {
        same
    } else {
        first
    }
}

/// The motor that belongs to a camera.
pub fn find_motor_for_camera(devices: &[UsbDeviceInfo], camera: &UsbDeviceInfo) -> (r: Option<usize>)
    ensures
        opt_int(r) == sibling_choice(devices@, camera.bus_number, camera.port_number, DeviceKind::Motor),
{
    find_sibling(devices, camera.bus_number, camera.port_number, DeviceKind::Motor)
}

/// `Some(n)` read as an integer.
pub open spec fn opt_int(o: Option<usize>) -> Option<int> {
    match o {
        Some(n) => Some(n as int),
        None => None,
    }
}

/// The cameras whose serial number can be asked for: the positions of the
/// cameras whose descriptor names a serial number string, in order.
pub open spec fn serial_positions(devs: Seq<UsbDeviceInfo>) -> Seq<int>
    decreases devs.len(),
{
    if devs.len() == 0 {
        seq![]
    } else {
        let prev = serial_positions(devs.drop_last());
        let d = devs.last();
        if info_is_kind(d, DeviceKind::Camera) && d.descriptor.unwrap().serial_number_string_index is Some {
            prev.push(devs.len() - 1)
        } else {
            prev
        }
    }
}

/// The positions of the cameras whose serial number can be asked for.
pub fn serial_candidates(devices: &[UsbDeviceInfo]) -> (r: Vec<usize>)
    ensures
        r@.len() == serial_positions(devices@).len(),
        forall|k: int| 0 <= k < r@.len() ==> #[trigger] r@[k] as int == serial_positions(devices@)[k],
{
    let mut r: Vec<usize> = Vec::new();
    let mut i: usize = 0;
    while i < devices.len()
        invariant
            i <= devices@.len(),
            r@.len() == serial_positions(devices@.take(i as int)).len(),
            forall|k: int|
                0 <= k < r@.len() ==> #[trigger] r@[k] as int == serial_positions(devices@.take(i as int))[k],
        decreases devices@.len() - i,
    {
        assert(devices@.take(i + 1).drop_last() =~= devices@.take(i as int));
        if let Some(desc) = &devices[i].descriptor {
            if is_camera(desc) && desc.serial_number_string_index().is_some() {
                r.push(i);
            }
        }
        i = i + 1;
    }
    assert(devices@.take(devices@.len() as int) =~= devices@);
    r
}

} // verus!
