//! The camera and motor control protocol over USB control transfers: the
//! command packets of register access, how the camera's replies are read and
//! answered, the register writes that start and stop the streams, and the
//! control requests of the LED and the tilt motor.
//!
//! The transfers themselves are made by the caller; the functions here
//! decide what is sent and what a reply means.

use vstd::prelude::*;
use vstd::string::StringExecFns;

use crate::codec::{be_i16, i16_from_be, le16, u16_from_le};
use crate::protocol::{
    assemble_cmd_packet, cmd_packet, cmos_read_addr, cmos_write_addr, le_bytes, read_cmos_cmd,
    read_register_cmd, write_cmos_cmd, write_register_cmd,
};
use crate::text::{decimal, hex_list, push_decimal, push_hex_list, push_signed_decimal, signed_decimal};
use crate::{DepthFormat, Error, Resolution, TiltState, TiltStatus, VideoFormat};

verus! {

/// Request type of a command: host to device, vendor, device.
pub const CMD_REQUEST_TYPE: u8 = 0x40;

/// Request type of a reply read: device to host, vendor, device.
pub const REPLY_REQUEST_TYPE: u8 = 0xC0;

/// Size of the buffer a reply is read into.
pub const REPLY_BUF_SIZE: usize = 512;

/// How many empty reads a reply is waited for, at most.
pub const REPLY_POLL_LIMIT: u32 = 100;

/// The code of a control transfer that timed out.
pub const TRANSFER_TIMEOUT: i32 = -7;

/// Opcode of a register read.
pub const OPCODE_READ_REGISTER: u16 = 0x02;

/// Opcode of a register write.
pub const OPCODE_WRITE_REGISTER: u16 = 0x03;

/// Opcode of a CMOS register access.
pub const OPCODE_CMOS: u16 = 0x95;

/// The tag of every command.
pub const COMMAND_TAG: u16 = 1;

/// The register holding the IR emitter brightness.
pub const REG_IR_BRIGHTNESS: u16 = 0x0015;

/// The CMOS register holding the shutter width.
pub const CMOS_SHUTTER: u16 = 0x0009;

/// The command packet that reads camera register `addr`.
pub fn read_register_packet(addr: u16) -> (r: Vec<u8>)
    ensures
        r@ == cmd_packet(OPCODE_READ_REGISTER, COMMAND_TAG, le_bytes(addr)),
{
    let payload = read_register_cmd(addr);
    assemble_cmd_packet(OPCODE_READ_REGISTER, COMMAND_TAG, &payload)
}

/// The command packet that writes `value` to camera register `addr`.
pub fn write_register_packet(addr: u16, value: u16) -> (r: Vec<u8>)
    ensures
        r@ == cmd_packet(OPCODE_WRITE_REGISTER, COMMAND_TAG, le_bytes(addr) + le_bytes(value)),
{
    let payload = write_register_cmd(addr, value);
    assemble_cmd_packet(OPCODE_WRITE_REGISTER, COMMAND_TAG, &payload)
}

/// The command packet that reads CMOS register `addr`.
pub fn read_cmos_packet(addr: u16) -> (r: Vec<u8>)
    ensures
        r@ == cmd_packet(OPCODE_CMOS, COMMAND_TAG, le_bytes(1) + le_bytes(cmos_read_addr(addr)) + le_bytes(0)),
{
    let payload = read_cmos_cmd(addr);
    assemble_cmd_packet(OPCODE_CMOS, COMMAND_TAG, &payload)
}

/// The command packet that writes `value` to CMOS register `addr`.
pub fn write_cmos_packet(addr: u16, value: u16) -> (r: Vec<u8>)
    ensures
        r@ == cmd_packet(
            OPCODE_CMOS,
            COMMAND_TAG,
            le_bytes(1) + le_bytes(cmos_write_addr(addr)) + le_bytes(value),
        ),
{
    let payload = write_cmos_cmd(addr, value);
    assemble_cmd_packet(OPCODE_CMOS, COMMAND_TAG, &payload)
}

/// A `Usb` error whose message is `m`.
pub open spec fn usb_error_is<T>(r: Result<T, Error>, m: Seq<char>) -> bool {
    r matches Err(Error::Usb(s)) && s@ == m
}

/// What sending a command of `len` bytes came to, where the transfer
/// returned `ret`: a negative code is a failure, and fewer bytes than the
/// command a short write.
pub fn check_sent(ret: i32, len: usize) -> (r: Result<(), Error>)
    ensures
        ret < 0 ==> usb_error_is(r, "send_cmd failed: "@ + signed_decimal(ret as int)),
        ret >= 0 && ret as int != len ==> usb_error_is(
            r,
            "send_cmd: wrote "@ + decimal(ret as nat) + " of "@ + decimal(len as nat) + " bytes"@,
        ),
        ret >= 0 && ret as int == len ==> r is Ok,
{
    if ret < 0 {
        let mut m = String::new();
        m.append("send_cmd failed: ");
        push_signed_decimal(&mut m, ret as i64);
        return Err(Error::Usb(m));
    }
    if ret as usize != len {
        let mut m = String::new();
        m.append("send_cmd: wrote ");
        push_decimal(&mut m, ret as u64);
        m.append(" of ");
        push_decimal(&mut m, len as u64);
        m.append(" bytes");
        return Err(Error::Usb(m));
    }
    Ok(())
}

/// The next step of waiting for a camera reply.
pub enum ReplyPoll {
    /// A reply of this many bytes arrived.
    Done(usize),
    /// Nothing usable yet: wait a moment and read again, with the count of
    /// empty reads so far.
    Retry(u32),
    /// The wait failed.
    Failed(Error),
}

/// The wait failed with a `Usb` error whose message is `m`.
pub open spec fn poll_failed_with(r: ReplyPoll, m: Seq<char>) -> bool {
    r matches ReplyPoll::Failed(Error::Usb(s)) && s@ == m
}

/// One read of a camera reply returned `ret` after `loops` empty reads. A
/// failure other than a timeout ends the wait; a reply that is neither empty
/// nor fills the whole buffer is taken; otherwise the read is repeated, at
/// most `REPLY_POLL_LIMIT` times.
pub fn poll_reply(ret: i32, loops: u32) -> (r: ReplyPoll)
    requires
        loops < u32::MAX,
    ensures
        ret < 0 && ret != TRANSFER_TIMEOUT ==> poll_failed_with(
            r,
            "read_reply control read failed: "@ + signed_decimal(ret as int),
        ),
        0 < ret < REPLY_BUF_SIZE ==> r == ReplyPoll::Done(ret as usize),
        (ret == TRANSFER_TIMEOUT || ret == 0 || ret >= REPLY_BUF_SIZE) && loops + 1 > REPLY_POLL_LIMIT
            ==> poll_failed_with(r, "read_reply: timeout waiting for camera reply"@),
        (ret == TRANSFER_TIMEOUT || ret == 0 || ret >= REPLY_BUF_SIZE) && loops + 1 <= REPLY_POLL_LIMIT
            ==> r == ReplyPoll::Retry((loops + 1) as u32),
{
    if ret < 0 && ret != TRANSFER_TIMEOUT {
        let mut m = String::new();
        m.append("read_reply control read failed: ");
        push_signed_decimal(&mut m, ret as i64);
        return ReplyPoll::Failed(Error::Usb(m));
    }
    let res: usize = if ret < 0 {
        0
    } else {
        ret as usize
    };
    if res > 0 && res < REPLY_BUF_SIZE {
        return ReplyPoll::Done(res);
    }
    let next = loops + 1;
    if next > REPLY_POLL_LIMIT {
        return ReplyPoll::Failed(Error::Usb("read_reply: timeout waiting for camera reply".to_owned()));
    }
    ReplyPoll::Retry(next)
}

/// The reply starts with `'R'` and `second`.
pub open spec fn reply_tagged(reply: Seq<u8>, second: u8) -> bool {
    reply.len() >= 2 && reply[0] == 0x52 && reply[1] == second
}

/// The first bytes of a reply shown in an error message.
pub open spec fn reply_head(reply: Seq<u8>) -> Seq<u8> {
    reply.take(if reply.len() < 4 {
        reply.len() as int
    } else {
        4
    })
}

/// The error message of a reply with an unknown magic.
fn unknown_magic(prefix: &str, reply: &[u8]) -> (r: Error)
    ensures
        r matches Error::Usb(m) && m@ == prefix@ + " unknown reply magic "@ + hex_list(reply_head(reply@)),
{
    let n = if reply.len() < 4 {
        reply.len()
    } else {
        4
    };
    let mut m = String::new();
    m.append(prefix);
    m.append(" unknown reply magic ");
    push_hex_list(&mut m, &reply[0..n]);
    assert(reply@.subrange(0, n as int) =~= reply_head(reply@));
    Error::Usb(m)
}

/// What the reply to a register read means: `"RB"` acknowledges it, with
/// the value at bytes 8 and 9 when the reply holds them (else 0); `"RR"` and
/// `"RS"` refuse it.
pub fn parse_read_register_reply(reply: &[u8]) -> (r: Result<u16, Error>)
    ensures
        reply@.len() < 2 ==> usb_error_is(r, "read_register: short reply"@),
        reply_tagged(reply@, 0x42) ==> r == Ok::<u16, Error>(
            if reply@.len() >= 10 {
                le16(reply@[8], reply@[9]) as u16
            } else {
                0
            },
        ),
        reply_tagged(reply@, 0x52) ==> usb_error_is(r, "read_register: NACK"@),
        reply_tagged(reply@, 0x53) ==> usb_error_is(r, "read_register: NACK+bad addr"@),
        reply@.len() >= 2 && !reply_tagged(reply@, 0x42) && !reply_tagged(reply@, 0x52)
            && !reply_tagged(reply@, 0x53) ==> usb_error_is(
            r,
            "read_register:"@ + " unknown reply magic "@ + hex_list(reply_head(reply@)),
        ),
{
    if reply.len() < 2 {
        return Err(Error::Usb("read_register: short reply".to_owned()));
    }
    if reply[0] == 0x52 && reply[1] == 0x42 {
        if reply.len() >= 10 {
            return Ok(u16_from_le(reply[8], reply[9]));
        }
        return Ok(0);
    } else if reply[0] == 0x52 && reply[1] == 0x52 {
        return Err(Error::Usb("read_register: NACK".to_owned()));
    } else if reply[0] == 0x52 && reply[1] == 0x53 {
        return Err(Error::Usb("read_register: NACK+bad addr".to_owned()));
    }
    Err(unknown_magic("read_register:", reply))
}

/// What the reply to a register write means: `"RB"` acknowledges it; `"RR"`
/// and `"RS"` refuse it.
pub fn parse_write_register_reply(reply: &[u8]) -> (r: Result<(), Error>)
    ensures
        reply@.len() < 2 ==> usb_error_is(r, "write_register: short reply"@),
        reply_tagged(reply@, 0x42) ==> r is Ok,
        reply_tagged(reply@, 0x52) ==> usb_error_is(r, "write_register: NACK"@),
        reply_tagged(reply@, 0x53) ==> usb_error_is(r, "write_register: NACK+bad addr"@),
        reply@.len() >= 2 && !reply_tagged(reply@, 0x42) && !reply_tagged(reply@, 0x52)
            && !reply_tagged(reply@, 0x53) ==> usb_error_is(
            r,
            "write_register:"@ + " unknown reply magic "@ + hex_list(reply_head(reply@)),
        ),
{
    if reply.len() < 2 {
        return Err(Error::Usb("write_register: short reply".to_owned()));
    }
    if reply[0] == 0x52 && reply[1] == 0x42 {
        return Ok(());
    } else if reply[0] == 0x52 && reply[1] == 0x52 {
        return Err(Error::Usb("write_register: NACK".to_owned()));
    } else if reply[0] == 0x52 && reply[1] == 0x53 {
        return Err(Error::Usb("write_register: NACK+bad addr".to_owned()));
    }
    Err(unknown_magic("write_register:", reply))
}

/// What the reply to a CMOS register read means: at least 14 bytes starting
/// with `"RB"`, the value at bytes 12 and 13.
pub fn parse_read_cmos_reply(reply: &[u8]) -> (r: Result<u16, Error>)
    ensures
        reply@.len() < 14 ==> usb_error_is(r, "read_cmos_register: short reply"@),
        reply@.len() >= 14 && reply_tagged(reply@, 0x42) ==> r == Ok::<u16, Error>(
            le16(reply@[12], reply@[13]) as u16,
        ),
        reply@.len() >= 14 && !reply_tagged(reply@, 0x42) ==> usb_error_is(
            r,
            "read_cmos_register:"@ + " unknown reply magic "@ + hex_list(reply_head(reply@)),
        ),
{
    if reply.len() < 14 {
        return Err(Error::Usb("read_cmos_register: short reply".to_owned()));
    }
    if reply[0] != 0x52 || reply[1] != 0x42 {
        return Err(unknown_magic("read_cmos_register:", reply));
    }
    Ok(u16_from_le(reply[12], reply[13]))
}

/// Register writes to make in order, stopping at the first that fails; when
/// all succeed, the result is `outcome`.
pub struct RegisterPlan {
    pub writes: Vec<(u16, u16)>,
    pub outcome: Result<(), Error>,
}

/// The register writes that start the depth stream in `format`, as pairs
/// of register and value. A format the camera cannot stream stops after the
/// stream was reset.
pub open spec fn depth_stream_writes(format: DepthFormat) -> Seq<(u16, u16)> {
    let prefix = seq![(0x0105u16, 0x00u16), (0x0006u16, 0x00u16)];
    match format {
        DepthFormat::Bit11 | DepthFormat::Bit11Packed | DepthFormat::Registered => prefix + seq![
            (0x0012u16, 0x03u16),
            (0x0013u16, 0x01u16),
            (0x0014u16, 0x1eu16),
            (0x0006u16, 0x02u16),
            (0x0017u16, 0x00u16),
        ],
        DepthFormat::Bit10 | DepthFormat::Bit10Packed => prefix + seq![
            (0x0012u16, 0x02u16),
            (0x0013u16, 0x01u16),
            (0x0014u16, 0x1eu16),
            (0x0006u16, 0x02u16),
            (0x0017u16, 0x00u16),
        ],
        DepthFormat::Mm => prefix,
    }
}

/// The camera streams depth in every format but millimetres.
pub open spec fn depth_streamable(format: DepthFormat) -> bool {
    format != DepthFormat::Mm
}

fn push_pairs(v: &mut Vec<(u16, u16)>, pairs: &[(u16, u16)])
    ensures
        final(v)@ == old(v)@ + pairs@,
{
    let ghost start = v@;
    let mut i: usize = 0;
    while i < pairs.len()
        invariant
            i <= pairs@.len(),
            v@ == start + pairs@.take(i as int),
        decreases pairs@.len() - i,
    {
        v.push(pairs[i]);
        i = i + 1;
        assert(v@ =~= start + pairs@.take(i as int));
    }
    assert(pairs@.take(pairs@.len() as int) =~= pairs@);
}

/// How the depth stream is started in `format`: medium resolution at 30
/// frames a second, without mirroring.
pub fn depth_stream_plan(format: DepthFormat) -> (r: RegisterPlan)
    ensures
        r.writes@ == depth_stream_writes(format),
        r.outcome is Ok <==> depth_streamable(format),
        !depth_streamable(format) ==> r.outcome == Err::<(), Error>(Error::InvalidMode),
{
    let mut writes: Vec<(u16, u16)> = Vec::new();
    push_pairs(&mut writes, &[(0x0105u16, 0x00u16), (0x0006u16, 0x00u16)]);
    let mode: u16 = match format {
        DepthFormat::Bit11 | DepthFormat::Bit11Packed | DepthFormat::Registered => 0x03,
        DepthFormat::Bit10 | DepthFormat::Bit10Packed => 0x02,
        DepthFormat::Mm => {
            assert(writes@ =~= depth_stream_writes(format));
            return RegisterPlan { writes, outcome: Err(Error::InvalidMode) };
        },
    };
    push_pairs(
        &mut writes,
        &[(0x0012u16, mode), (0x0013u16, 0x01u16), (0x0014u16, 0x1eu16), (0x0006u16, 0x02u16), (0x0017u16, 0x00u16)],
    );
    assert(writes@ =~= depth_stream_writes(format));
    RegisterPlan { writes, outcome: Ok(()) }
}

/// The register write that stops the depth stream.
pub fn stop_depth_writes() -> (r: Vec<(u16, u16)>)
    ensures
        r@ == seq![(0x0006u16, 0x00u16)],
{
    let mut r: Vec<(u16, u16)> = Vec::new();
    r.push((0x0006u16, 0x00u16));
    assert(r@ =~= seq![(0x0006u16, 0x00u16)]);
    r
}

/// The register writes, made whatever each of them comes to, that leave
/// the video stream idle.
pub fn stop_video_writes() -> (r: Vec<(u16, u16)>)
    ensures
        r@ == seq![(0x000cu16, 0x00u16), (0x0006u16, 0x00u16)],
{
    let mut r: Vec<(u16, u16)> = Vec::new();
    r.push((0x000cu16, 0x00u16));
    r.push((0x0006u16, 0x00u16));
    assert(r@ =~= seq![(0x000cu16, 0x00u16), (0x0006u16, 0x00u16)]);
    r
}

/// The video formats read from the infrared sensor.
pub open spec fn is_ir_format(format: VideoFormat) -> bool {
    format == VideoFormat::Ir8Bit || format == VideoFormat::Ir10Bit || format == VideoFormat::Ir10BitPacked
}

/// The video formats sent as YUV.
pub open spec fn is_yuv_format(format: VideoFormat) -> bool {
    format == VideoFormat::YuvRgb || format == VideoFormat::YuvRaw
}

/// The camera streams video in `format` at `resolution`: RGB and infrared
/// at high and medium resolution, YUV at medium resolution only.
pub open spec fn video_streamable(format: VideoFormat, resolution: Resolution) -> bool {
    if is_yuv_format(format) {
        resolution == Resolution::Medium
    } else {
        resolution == Resolution::High || resolution == Resolution::Medium
    }
}

/// The resolution and frame-rate codes of a streamable video mode.
pub open spec fn video_res_fps(format: VideoFormat, resolution: Resolution) -> (u16, u16) {
    if is_yuv_format(format) {
        (0x01, 0x0f)
    } else if resolution == Resolution::High {
        (0x02, 0x0f)
    } else {
        (0x01, 0x1e)
    }
}

/// The register writes that start the video stream in `format` at
/// `resolution`. High-resolution infrared first starts and stops the depth
/// stream, without which it does not come up. The mode, resolution,
/// frame-rate and mirroring registers are those of the RGB camera, or of the
/// infrared camera for the infrared formats; YUV takes mode 5.
pub open spec fn video_stream_writes(format: VideoFormat, resolution: Resolution) -> Seq<(u16, u16)> {
    let (res_val, fps_val) = video_res_fps(format, resolution);
    let (mode_reg, res_reg, fps_reg, hflip_reg) = if is_ir_format(format) {
        (0x19u16, 0x1au16, 0x1bu16, 0x48u16)
    } else {
        (0x0cu16, 0x0du16, 0x0eu16, 0x47u16)
    };
    let mode_val: u16 = if is_yuv_format(format) {
        0x05
    } else {
        0x00
    };
    let warmup = if is_ir_format(format) && resolution == Resolution::High {
        seq![(0x0013u16, 0x01u16), (0x0014u16, 0x1eu16), (0x0006u16, 0x02u16), (0x0006u16, 0x00u16)]
    } else {
        seq![]
    };
    if !video_streamable(format, resolution) {
        seq![]
    } else {
        warmup + seq![(mode_reg, mode_val), (res_reg, res_val), (fps_reg, fps_val), (hflip_reg, 0x00u16)]
    }
}

/// How the video stream is started in `format` at `resolution`.
pub fn video_stream_plan(format: VideoFormat, resolution: Resolution) -> (r: RegisterPlan)
    ensures
        r.writes@ == video_stream_writes(format, resolution),
        r.outcome is Ok <==> video_streamable(format, resolution),
        !video_streamable(format, resolution) ==> r.outcome == Err::<(), Error>(Error::InvalidMode),
{
    let mut writes: Vec<(u16, u16)> = Vec::new();
    let ir = match format {
        VideoFormat::Ir8Bit | VideoFormat::Ir10Bit | VideoFormat::Ir10BitPacked => true,
        _ => false,
    };
    let yuv = match format {
        VideoFormat::YuvRgb | VideoFormat::YuvRaw => true,
        _ => false,
    };
    let (res_val, fps_val): (u16, u16) = if yuv {
        match resolution {
            Resolution::Medium => (0x01, 0x0f),
            _ => {
                assert(writes@ =~= video_stream_writes(format, resolution));
                return RegisterPlan { writes, outcome: Err(Error::InvalidMode) };
            },
        }
    } else {
        match resolution {
            Resolution::High => {
                if ir {
                    push_pairs(
                        &mut writes,
                        &[(0x0013u16, 0x01u16), (0x0014u16, 0x1eu16), (0x0006u16, 0x02u16), (0x0006u16, 0x00u16)],
                    );
                }
                (0x02, 0x0f)
            },
            Resolution::Medium => (0x01, 0x1e),
            Resolution::Low => {
                assert(writes@ =~= video_stream_writes(format, resolution));
                return RegisterPlan { writes, outcome: Err(Error::InvalidMode) };
            },
        }
    };
    let (mode_reg, res_reg, fps_reg, hflip_reg): (u16, u16, u16, u16) = if ir {
        (0x19, 0x1a, 0x1b, 0x48)
    } else {
        (0x0c, 0x0d, 0x0e, 0x47)
    };
    let mode_val: u16 = if yuv {
        0x05
    } else {
        0x00
    };
    push_pairs(&mut writes, &[(mode_reg, mode_val), (res_reg, res_val), (fps_reg, fps_val), (hflip_reg, 0x00u16)]);
    assert(writes@ =~= video_stream_writes(format, resolution));
    RegisterPlan { writes, outcome: Ok(()) }
}

/// A control transfer to the motor device.
pub struct ControlRequest {
    pub request_type: u8,
    pub request: u8,
    pub value: u16,
    pub index: u16,
    pub data: Vec<u8>,
}

/// A signed byte as the 16-bit word it extends to.
pub open spec fn sign_extend16(v: i8) -> u16 {
    if v < 0 {
        (v + 65536) as u16
    } else {
        v as u16
    }
}

/// A signed byte as the unsigned byte of the same bits.
pub open spec fn byte_bits(v: i8) -> u8 {
    if v < 0 {
        (v + 256) as u8
    } else {
        v as u8
    }
}

/// The request that sets the LED to the firmware code `option`.
pub fn led_request(option: u8) -> (r: ControlRequest)
    ensures
        r.request_type == CMD_REQUEST_TYPE,
        r.request == 0x06,
        r.value == option as u16,
        r.index == 0,
        r.data@ == seq![option],
{
    let mut data: Vec<u8> = Vec::new();
    data.push(option);
    assert(data@ =~= seq![option]);
    ControlRequest { request_type: CMD_REQUEST_TYPE, request: 0x06, value: option as u16, index: 0, data }
}

/// The request that moves the tilt motor to `angle` half-degrees.
pub fn tilt_request(angle: i8) -> (r: ControlRequest)
    ensures
        r.request_type == CMD_REQUEST_TYPE,
        r.request == 0x31,
        r.value == sign_extend16(angle),
        r.index == 0,
        r.data@ == seq![byte_bits(angle)],
{
    let (value, bits): (u16, u8) = if angle < 0 {
        ((angle as i32 + 65536) as u16, (angle as i32 + 256) as u8)
    } else {
        (angle as u16, angle as u8)
    };
    let mut data: Vec<u8> = Vec::new();
    data.push(bits);
    assert(data@ =~= seq![byte_bits(angle)]);
    ControlRequest { request_type: CMD_REQUEST_TYPE, request: 0x31, value, index: 0, data }
}

/// The request type, request, value and index of the read of the 10-byte
/// tilt state.
pub fn tilt_state_request() -> (r: (u8, u8, u16, u16))
    ensures
        r == (REPLY_REQUEST_TYPE, 0x32u8, 0u16, 0u16),
{
    (REPLY_REQUEST_TYPE, 0x32, 0, 0)
}

/// The tilt status of its firmware code; unknown codes read as stopped.
pub open spec fn tilt_status_of(code: u8) -> TiltStatus {
    if code == 1 {
        TiltStatus::Limit
    } else if code == 4 {
        TiltStatus::Moving
    } else {
        TiltStatus::Stopped
    }
}

/// The signed value of a byte.
pub open spec fn signed_byte(b: u8) -> int {
    if b < 128 {
        b as int
    } else {
        b - 256
    }
}

/// The tilt state in the 10 bytes read from the motor: big-endian
/// accelerometer readings at bytes 2, 4 and 6, the tilt angle in
/// half-degrees at byte 8 and the status at byte 9.
pub fn parse_tilt_state(buf: &[u8; 10]) -> (r: TiltState)
    ensures
        r.accelerometer_x == be_i16(buf@[2], buf@[3]),
        r.accelerometer_y == be_i16(buf@[4], buf@[5]),
        r.accelerometer_z == be_i16(buf@[6], buf@[7]),
        r.tilt_angle == signed_byte(buf@[8]),
        r.tilt_status == tilt_status_of(buf@[9]),
{
    let b8 = buf[8];
    let tilt_angle: i8 = if b8 < 128 {
        b8 as i8
    } else {
        (b8 as i16 - 256) as i8
    };
    let tilt_status = if buf[9] == 0 {
        TiltStatus::Stopped
    } else if buf[9] == 1 {
        TiltStatus::Limit
    } else if buf[9] == 4 {
        TiltStatus::Moving
    } else {
        TiltStatus::Stopped
    };
    TiltState {
        accelerometer_x: i16_from_be(buf[2], buf[3]),
        accelerometer_y: i16_from_be(buf[4], buf[5]),
        accelerometer_z: i16_from_be(buf[6], buf[7]),
        tilt_angle,
        tilt_status,
    }
}

} // verus!
