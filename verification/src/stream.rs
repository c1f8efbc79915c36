//! Reassembly of the isochronous packet stream of the camera into frames:
//! header parsing, sync detection, lost-packet accounting and frame assembly
//! for both the depth and the video stream.

use vstd::prelude::*;

use crate::codec::{le32, u32_from_le};

verus! {

/// Size of the header that prefixes every isochronous packet.
pub const PACKET_HEADER_SIZE: usize = 12;

/// 12-byte packet header prefixing every USB isoc packet.
#[derive(Debug, Clone, Copy)]
pub struct PacketHeader {
    pub magic: [u8; 2],
    pub pad: u8,
    pub flag: u8,
    pub unk1: u8,
    pub seq: u8,
    pub unk2: u8,
    pub unk3: u8,
    pub timestamp: u32,
}

/// The flag byte of a start-of-frame packet of the stream `stream_flag`.
pub open spec fn sof_flag(stream_flag: u8) -> u8 {
    stream_flag | 1
}

/// The flag byte of a middle-of-frame packet of the stream `stream_flag`.
pub open spec fn mof_flag(stream_flag: u8) -> u8 {
    stream_flag | 2
}

/// The flag byte of an end-of-frame packet of the stream `stream_flag`.
pub open spec fn eof_flag(stream_flag: u8) -> u8 {
    stream_flag | 5
}

/// The flag byte of a raw packet.
pub open spec fn pkt_flag(pkt: Seq<u8>) -> u8 {
    pkt[3]
}

/// The sequence number of a raw packet.
pub open spec fn pkt_seq(pkt: Seq<u8>) -> u8 {
    pkt[5]
}

/// The timestamp of a raw packet.
pub open spec fn pkt_timestamp(pkt: Seq<u8>) -> u32 {
    le32(pkt[8], pkt[9], pkt[10], pkt[11]) as u32
}

/// The payload of a raw packet: what follows its header.
pub open spec fn pkt_payload(pkt: Seq<u8>) -> Seq<u8> {
    pkt.skip(PACKET_HEADER_SIZE as int)
}

/// A raw packet holds a whole header that starts with the magic "RB".
pub open spec fn pkt_is_valid(pkt: Seq<u8>) -> bool {
    pkt.len() >= PACKET_HEADER_SIZE && pkt[0] == 82 && pkt[1] == 66
}

impl PacketHeader {
    pub const SIZE: usize = 12;

    /// Parse from raw bytes (at least 12 bytes).
    pub fn from_bytes(buf: &[u8]) -> (r: Option<Self>)
        ensures
            r is Some <==> buf@.len() >= 12,
            r matches Some(h) ==> {
                &&& h.magic[0] == buf@[0]
                &&& h.magic[1] == buf@[1]
                &&& h.pad == buf@[2]
                &&& h.flag == buf@[3]
                &&& h.unk1 == buf@[4]
                &&& h.seq == buf@[5]
                &&& h.unk2 == buf@[6]
                &&& h.unk3 == buf@[7]
                &&& h.timestamp == le32(buf@[8], buf@[9], buf@[10], buf@[11])
            },
    {
        if buf.len() < 12 {
            return None;
        }
        Some(
            PacketHeader {
                magic: [buf[0], buf[1]],
                pad: buf[2],
                flag: buf[3],
                unk1: buf[4],
                seq: buf[5],
                unk2: buf[6],
                unk3: buf[7],
                timestamp: u32_from_le(buf[8], buf[9], buf[10], buf[11]),
            },
        )
    }

    /// The magic is "RB".
    pub fn is_valid_magic(&self) -> (r: bool)
        ensures
            r == (self.magic[0] == 82 && self.magic[1] == 66),
    {
        self.magic[0] == 82u8 && self.magic[1] == 66u8
    }

    /// This is the start of a frame of the given stream.
    pub fn is_sof(&self, stream_flag: u8) -> (r: bool)
        ensures
            r == (self.flag == sof_flag(stream_flag)),
    {
        self.flag == (stream_flag | 1u8)
    }

    /// This is the middle of a frame of the given stream.
    pub fn is_mof(&self, stream_flag: u8) -> (r: bool)
        ensures
            r == (self.flag == mof_flag(stream_flag)),
    {
        self.flag == (stream_flag | 2u8)
    }

    /// This is the end of a frame of the given stream.
    pub fn is_eof(&self, stream_flag: u8) -> (r: bool)
        ensures
            r == (self.flag == eof_flag(stream_flag)),
    {
        self.flag == (stream_flag | 5u8)
    }
}

/// The abstract state of a stream reassembler.
#[verifier::ext_equal]
pub struct StreamModel {
    pub running: bool,
    pub stream_flag: u8,
    pub synced: bool,
    pub seq: u8,
    pub pkt_num: nat,
    pub got_pkts: nat,
    pub valid_pkts: nat,
    pub pkts_per_frame: nat,
    pub pkt_size: nat,
    pub frame_size: nat,
    pub last_pkt_size: nat,
    pub variable_length: bool,
    pub valid_frames: nat,
    pub lost_pkts: nat,
    pub last_timestamp: u32,
    pub timestamp: u32,
    pub raw_buf: Seq<u8>,
    pub proc_buf: Seq<u8>,
}

/// `buf` with `data` written over it from `offset` on.
pub open spec fn write_at(buf: Seq<u8>, offset: int, data: Seq<u8>) -> Seq<u8> {
    if data.len() == 0 {
        buf
    } else {
        buf.take(offset) + data + buf.skip(offset + data.len())
    }
}

/// The smaller of two naturals.
pub open spec fn min_nat(a: nat, b: nat) -> nat {
    if a <= b {
        a
    } else {
        b
    }
}

/// `a - b`, or 0 where `b` exceeds `a`.
pub open spec fn sat_sub(a: nat, b: nat) -> nat {
    if a >= b {
        (a - b) as nat
    } else {
        0
    }
}

/// The successor of a sequence number, modulo 256.
pub open spec fn next_seq(seq: u8) -> u8 {
    ((seq + 1) % 256) as u8
}

/// How many sequence numbers lie between the expected and the received one,
/// modulo 256.
pub open spec fn seq_gap(received: u8, expected: u8) -> nat {
    ((received - expected) % 256) as nat
}

/// The bookkeeping of a completed frame.
pub open spec fn complete_frame(s: StreamModel) -> StreamModel {
    StreamModel {
        pkt_num: 0,
        valid_pkts: s.got_pkts,
        got_pkts: 0,
        timestamp: s.last_timestamp,
        valid_frames: s.valid_frames + 1,
        ..s
    }
}

/// The stream loses sync.
pub open spec fn unsync(s: StreamModel) -> StreamModel {
    StreamModel { synced: false, ..s }
}

/// An unsynced stream receives a start-of-frame packet: it syncs on it and
/// stores its payload at the start of the frame.
pub open spec fn sof_step(s: StreamModel, pkt: Seq<u8>) -> (StreamModel, Option<nat>) {
    let data = pkt_payload(pkt);
    let n = min_nat(data.len(), s.raw_buf.len());
    let s1 = StreamModel {
        synced: true,
        seq: next_seq(pkt_seq(pkt)),
        pkt_num: 1,
        got_pkts: 1,
        valid_pkts: 0,
        last_timestamp: pkt_timestamp(pkt),
        raw_buf: write_at(s.raw_buf, 0, data.take(n as int)),
        ..s
    };
    if pkt_flag(pkt) == eof_flag(s.stream_flag) {
        (
            complete_frame(s1),
            Some(
                if s.variable_length {
                    data.len()
                } else {
                    s.last_pkt_size
                },
            ),
        )
    } else {
        (s1, None)
    }
}

/// Accounting for packets lost before `pkt`. The third component tells
/// whether the loss ends the processing of `pkt` (the stream lost sync).
pub open spec fn lost_step(s: StreamModel, pkt: Seq<u8>) -> (StreamModel, Option<nat>, bool) {
    if pkt_seq(pkt) == s.seq {
        (s, None, false)
    } else {
        let lost = seq_gap(pkt_seq(pkt), s.seq);
        let s1 = StreamModel { lost_pkts: s.lost_pkts + lost, ..s };
        if lost > 5 || s.variable_length {
            (unsync(s1), None, true)
        } else {
            let left = sat_sub(s.pkts_per_frame, s.pkt_num);
            if left <= lost {
                (
                    StreamModel { pkt_num: (lost - left) as nat, ..complete_frame(s1) },
                    Some(s.frame_size),
                    false,
                )
            } else {
                (StreamModel { pkt_num: s.pkt_num + lost, ..s1 }, None, false)
            }
        }
    }
}

/// The packet's flag fits its position in the frame.
pub open spec fn flag_fits(s: StreamModel, flag: u8) -> bool {
    if !s.variable_length {
        ||| (s.pkt_num == 0 && flag == sof_flag(s.stream_flag))
        ||| (s.pkt_num == s.pkts_per_frame - 1 && flag == eof_flag(s.stream_flag))
        ||| (s.pkt_num > 0 && s.pkt_num < s.pkts_per_frame - 1 && flag == mof_flag(
            s.stream_flag,
        ))
    } else {
        ||| (s.pkt_num == 0 && flag == sof_flag(s.stream_flag))
        ||| (s.pkt_num < s.pkts_per_frame && (flag == mof_flag(s.stream_flag) || flag == eof_flag(
            s.stream_flag,
        )))
    }
}

/// The payload size expected of the packet at the stream's position.
pub open spec fn expected_size(s: StreamModel) -> nat {
    if s.pkt_num == s.pkts_per_frame - 1 {
        s.last_pkt_size
    } else {
        s.pkt_size
    }
}

/// A packet accepted at the stream's position: its payload is stored at
/// `pkt_num * pkt_size` (as much of it as the frame buffer holds).
pub open spec fn accept_step(s: StreamModel, pkt: Seq<u8>, got: Option<nat>) -> (
    StreamModel,
    Option<nat>,
) {
    let data = pkt_payload(pkt);
    let offset = s.pkt_num * s.pkt_size;
    let n = min_nat(data.len(), sat_sub(s.raw_buf.len(), offset));
    let s2 = StreamModel {
        raw_buf: write_at(s.raw_buf, offset as int, data.take(n as int)),
        pkt_num: s.pkt_num + 1,
        seq: next_seq(pkt_seq(pkt)),
        got_pkts: s.got_pkts + 1,
        last_timestamp: pkt_timestamp(pkt),
        ..s
    };
    if pkt_flag(pkt) == eof_flag(s.stream_flag) {
        (
            complete_frame(s2),
            Some(
                if s.variable_length {
                    offset + data.len()
                } else {
                    offset + s.last_pkt_size
                },
            ),
        )
    } else {
        (s2, got)
    }
}

/// A synced stream receives a valid packet.
pub open spec fn synced_step(s: StreamModel, pkt: Seq<u8>) -> (StreamModel, Option<nat>) {
    let (s1, got, stop) = lost_step(s, pkt);
    let flag = pkt_flag(pkt);
    let datalen = pkt_payload(pkt).len();
    let is_eof = flag == eof_flag(s.stream_flag);
    if stop {
        (s1, None)
    } else if !flag_fits(s1, flag) {
        (unsync(s1), got)
    } else if !s1.variable_length {
        if datalen > expected_size(s1) && !is_eof {
            (s1, got)
        } else {
            accept_step(s1, pkt, got)
        }
    } else {
        if datalen > expected_size(s1) || (datalen < expected_size(s1) && !is_eof) {
            (unsync(s1), got)
        } else {
            accept_step(s1, pkt, got)
        }
    }
}

/// What processing one raw packet does to the stream, and the size of the
/// frame it completes, if any.
pub open spec fn step(s: StreamModel, pkt: Seq<u8>) -> (StreamModel, Option<nat>) {
    if !pkt_is_valid(pkt) {
        (s, None)
    } else if !s.synced {
        if pkt_flag(pkt) == sof_flag(s.stream_flag) {
            sof_step(s, pkt)
        } else {
            (s, None)
        }
    } else {
        synced_step(s, pkt)
    }
}

/// The counters that `step` raises stay within `usize`.
pub open spec fn step_fits(s: StreamModel, pkt: Seq<u8>) -> bool {
    step(s, pkt).0.lost_pkts <= usize::MAX && step(s, pkt).0.valid_frames <= usize::MAX
}

/// `Some(n)` read as a natural.
pub open spec fn opt_nat(o: Option<usize>) -> Option<nat> {
    match o {
        Some(n) => Some(n as nat),
        None => None,
    }
}

/// State machine for reassembling a Kinect isochronous stream into frames.
pub struct PacketStream {
    pub running: bool,
    pub stream_flag: u8,
    pub synced: bool,
    pub seq: u8,
    pub pkt_num: usize,
    pub got_pkts: usize,
    pub valid_pkts: usize,
    pub pkts_per_frame: usize,
    pub pkt_size: usize,
    pub frame_size: usize,
    pub last_pkt_size: usize,
    pub variable_length: bool,
    pub valid_frames: usize,
    pub lost_pkts: usize,
    pub last_timestamp: u32,
    pub timestamp: u32,
    pub raw_buf: Vec<u8>,
    pub proc_buf: Vec<u8>,
}

impl View for PacketStream {
    type V = StreamModel;

    open spec fn view(&self) -> StreamModel {
        StreamModel {
            running: self.running,
            stream_flag: self.stream_flag,
            synced: self.synced,
            seq: self.seq,
            pkt_num: self.pkt_num as nat,
            got_pkts: self.got_pkts as nat,
            valid_pkts: self.valid_pkts as nat,
            pkts_per_frame: self.pkts_per_frame as nat,
            pkt_size: self.pkt_size as nat,
            frame_size: self.frame_size as nat,
            last_pkt_size: self.last_pkt_size as nat,
            variable_length: self.variable_length,
            valid_frames: self.valid_frames as nat,
            lost_pkts: self.lost_pkts as nat,
            last_timestamp: self.last_timestamp,
            timestamp: self.timestamp,
            raw_buf: self.raw_buf@,
            proc_buf: self.proc_buf@,
        }
    }
}

/// The state of a freshly created reassembler: unsynced, every counter at
/// zero, a frame split into packets of `pkt_size` bytes, and zeroed buffers
/// of one frame.
pub open spec fn fresh_stream(stream_flag: u8, pkt_size: nat, frame_size: nat) -> StreamModel {
    StreamModel {
        running: false,
        stream_flag,
        synced: false,
        seq: 0,
        pkt_num: 0,
        got_pkts: 0,
        valid_pkts: 0,
        pkts_per_frame: ((frame_size + pkt_size - 1) as int / pkt_size as int) as nat,
        pkt_size,
        frame_size,
        last_pkt_size: if frame_size % pkt_size == 0 {
            pkt_size
        } else {
            frame_size % pkt_size
        },
        variable_length: false,
        valid_frames: 0,
        lost_pkts: 0,
        last_timestamp: 0,
        timestamp: 0,
        raw_buf: Seq::new(frame_size, |i: int| 0u8),
        proc_buf: Seq::new(frame_size, |i: int| 0u8),
    }
}

/// The invariant of a stream reassembler: packets have a positive size no
/// smaller than the last packet of a frame, a whole frame of packets fits in
/// `usize`, and no more packets were received than the frame position counts.
pub open spec fn stream_wf(s: StreamModel) -> bool {
    &&& s.pkt_size > 0
    &&& s.last_pkt_size <= s.pkt_size
    &&& s.pkts_per_frame * s.pkt_size <= usize::MAX
    &&& s.got_pkts <= s.pkt_num
}

/// Writes `n` bytes of the payload of `pkt` into `buf` from `offset` on.
fn copy_payload(buf: &mut Vec<u8>, offset: usize, pkt: &[u8], n: usize)
    requires
        offset + n <= old(buf)@.len(),
        PACKET_HEADER_SIZE + n <= pkt@.len(),
    ensures
        final(buf)@ == write_at(old(buf)@, offset as int, pkt_payload(pkt@).take(n as int)),
{
    let ghost orig = buf@;
    let mut j: usize = 0;
    assert(pkt_payload(pkt@).take(0).len() == 0);
    while j < n
        invariant
            j <= n,
            offset + n <= orig.len(),
            PACKET_HEADER_SIZE + n <= pkt@.len(),
            offset + n <= buf.len(),
            PACKET_HEADER_SIZE + n <= pkt.len(),
            buf@ == write_at(orig, offset as int, pkt_payload(pkt@).take(j as int)),
        decreases n - j,
    {
        let b = pkt[12 + j];
        buf.set(offset + j, b);
        j = j + 1;
        assert(buf@ =~= write_at(orig, offset as int, pkt_payload(pkt@).take(j as int)));
    }
}

impl PacketStream {
    /// Create a new stream reassembler.
    ///
    /// * `stream_flag` - 0x70 for depth, 0x80 for video
    /// * `pkt_size` - max payload per packet (1748 for depth, 1908 for video)
    /// * `frame_size` - total raw frame size in bytes
    pub fn new(stream_flag: u8, pkt_size: usize, frame_size: usize) -> (r: Self)
        requires
            pkt_size > 0,
            frame_size + pkt_size <= usize::MAX,
        ensures
            stream_wf(r@),
            r@ == fresh_stream(stream_flag, pkt_size as nat, frame_size as nat),
            r.running == false,
            r.stream_flag == stream_flag,
            r.synced == false,
            r.seq == 0,
            r.pkt_num == 0,
            r.got_pkts == 0,
            r.valid_pkts == 0,
            r.pkts_per_frame == (frame_size + pkt_size - 1) as int / pkt_size as int,
            r.pkt_size == pkt_size,
            r.frame_size == frame_size,
            r.last_pkt_size == (if frame_size % pkt_size == 0 {
                pkt_size as int
            } else {
                (frame_size % pkt_size) as int
            }),
            r.variable_length == false,
            r.valid_frames == 0,
            r.lost_pkts == 0,
            r.last_timestamp == 0,
            r.timestamp == 0,
            r.raw_buf@ == Seq::new(frame_size as nat, |i: int| 0u8),
            r.proc_buf@ == Seq::new(frame_size as nat, |i: int| 0u8),
    {
        let last_pkt_size = if frame_size % pkt_size == 0 {
            pkt_size
        } else {
            frame_size % pkt_size
        };
        let pkts_per_frame = (frame_size + pkt_size - 1) / pkt_size;
        proof {
            let t = (frame_size + pkt_size - 1) as int;
            vstd::arithmetic::div_mod::lemma_fundamental_div_mod(t, pkt_size as int);
            vstd::arithmetic::div_mod::lemma_mod_pos_bound(t, pkt_size as int);
            vstd::arithmetic::mul::lemma_mul_is_commutative(pkts_per_frame as int, pkt_size as int);
            vstd::arithmetic::div_mod::lemma_mod_pos_bound(frame_size as int, pkt_size as int);
        }
        let raw_buf: Vec<u8> = vec![0u8; frame_size];
        let proc_buf: Vec<u8> = vec![0u8; frame_size];
        assert(raw_buf@ =~= Seq::new(frame_size as nat, |i: int| 0u8));
        assert(proc_buf@ =~= Seq::new(frame_size as nat, |i: int| 0u8));
        PacketStream {
            running: false,
            stream_flag,
            synced: false,
            seq: 0,
            pkt_num: 0,
            got_pkts: 0,
            valid_pkts: 0,
            pkts_per_frame,
            pkt_size,
            frame_size,
            last_pkt_size,
            variable_length: false,
            valid_frames: 0,
            lost_pkts: 0,
            last_timestamp: 0,
            timestamp: 0,
            raw_buf,
            proc_buf,
        }
    }

    /// Frame-completion bookkeeping.
    fn finish_frame(&mut self)
        requires
            old(self).valid_frames < usize::MAX,
        ensures
            final(self)@ == complete_frame(old(self)@),
    {
        self.pkt_num = 0;
        self.valid_pkts = self.got_pkts;
        self.got_pkts = 0;
        self.timestamp = self.last_timestamp;
        self.valid_frames = self.valid_frames + 1;
    }

    /// An unsynced stream receives a start-of-frame packet.
    fn sync_on_packet(&mut self, pkt: &[u8], hdr: &PacketHeader) -> (r: Option<usize>)
        requires
            pkt_is_valid(pkt@),
            hdr.seq == pkt_seq(pkt@),
            hdr.flag == pkt_flag(pkt@),
            hdr.timestamp == pkt_timestamp(pkt@),
            stream_wf(old(self)@),
            step_fits(old(self)@, pkt@),
            !old(self).synced,
            pkt_flag(pkt@) == sof_flag(old(self).stream_flag),
        ensures
            stream_wf(final(self)@),
            (final(self)@, opt_nat(r)) == sof_step(old(self)@, pkt@),
    {
        let ghost s0 = self@;
        let ghost p = pkt@;
        let datalen = pkt.len() - PACKET_HEADER_SIZE;
        let is_eof = hdr.is_eof(self.stream_flag);
        self.synced = true;
        self.seq = if hdr.seq == 255u8 {
            0u8
        } else {
            hdr.seq + 1
        };
        self.pkt_num = 0;
        self.valid_pkts = 0;
        self.got_pkts = 0;
        let copy_len = if datalen < self.raw_buf.len() {
            datalen
        } else {
            self.raw_buf.len()
        };
        if copy_len > 0 {
            copy_payload(&mut self.raw_buf, 0, pkt, copy_len);
        }
        self.pkt_num = 1;
        self.got_pkts = 1;
        self.last_timestamp = hdr.timestamp;
        if is_eof {
            let got = if self.variable_length {
                datalen
            } else {
                self.last_pkt_size
            };
            assert(step(s0, p) == sof_step(s0, p));
            self.finish_frame();
            assert(self@ =~= sof_step(s0, p).0);
            Some(got)
        } else {
            assert(self@ =~= sof_step(s0, p).0);
            None
        }
    }

    /// Accounts for the packets lost before one with sequence number
    /// `seq`. Returns the size of a frame that the loss completed, and
    /// whether the stream lost sync.
    fn account_lost(&mut self, pkt: &[u8], seq: u8) -> (r: (Option<usize>, bool))
        requires
            pkt_is_valid(pkt@),
            seq == pkt_seq(pkt@),
            stream_wf(old(self)@),
            old(self).synced,
            old(self).pkts_per_frame > 0,
            lost_step(old(self)@, pkt@).0.lost_pkts <= usize::MAX,
            lost_step(old(self)@, pkt@).0.valid_frames <= usize::MAX,
        ensures
            stream_wf(final(self)@),
            (final(self)@, opt_nat(r.0), r.1) == lost_step(old(self)@, pkt@),
    {
        let ghost s0 = self@;
        if seq == self.seq {
            return (None, false);
        }
        let lost: u8 = if seq >= self.seq {
            seq - self.seq
        } else {
            ((seq as u16 + 256u16) - self.seq as u16) as u8
        };
        assert(lost as nat == seq_gap(seq, s0.seq));
        self.lost_pkts = self.lost_pkts + lost as usize;
        if lost > 5 || self.variable_length {
            self.synced = false;
            assert(self@ =~= lost_step(s0, pkt@).0);
            return (None, true);
        }
        let left = if self.pkts_per_frame >= self.pkt_num {
            self.pkts_per_frame - self.pkt_num
        } else {
            0
        };
        if left <= lost as usize {
            self.finish_frame();
            self.pkt_num = (lost as usize) - left;
            assert(self@ =~= lost_step(s0, pkt@).0);
            (Some(self.frame_size), false)
        } else {
            self.pkt_num = self.pkt_num + lost as usize;
            assert(self@ =~= lost_step(s0, pkt@).0);
            (None, false)
        }
    }

    /// Stores an accepted packet at its place in the frame.
    fn store_packet(&mut self, pkt: &[u8], hdr: &PacketHeader, got: Option<usize>) -> (r: Option<
        usize,
    >)
        requires
            pkt_is_valid(pkt@),
            hdr.seq == pkt_seq(pkt@),
            hdr.flag == pkt_flag(pkt@),
            hdr.timestamp == pkt_timestamp(pkt@),
            stream_wf(old(self)@),
            old(self).pkt_num < old(self).pkts_per_frame,
            accept_step(old(self)@, pkt@, opt_nat(got)).0.valid_frames <= usize::MAX,
            old(self).variable_length ==> pkt_payload(pkt@).len() <= expected_size(old(self)@),
        ensures
            stream_wf(final(self)@),
            (final(self)@, opt_nat(r)) == accept_step(old(self)@, pkt@, opt_nat(got)),
    {
        let ghost s0 = self@;
        let datalen = pkt.len() - PACKET_HEADER_SIZE;
        let is_eof = hdr.is_eof(self.stream_flag);
        proof {
            vstd::arithmetic::mul::lemma_mul_inequality(
                self.pkt_num as int + 1,
                self.pkts_per_frame as int,
                self.pkt_size as int,
            );
            vstd::arithmetic::mul::lemma_mul_is_distributive_add_other_way(
                self.pkt_size as int,
                self.pkt_num as int,
                1,
            );
        }
        let offset = self.pkt_num * self.pkt_size;
        let room = if self.raw_buf.len() >= offset {
            self.raw_buf.len() - offset
        } else {
            0
        };
        let copy_len = if datalen < room {
            datalen
        } else {
            room
        };
        if copy_len > 0 {
            copy_payload(&mut self.raw_buf, offset, pkt, copy_len);
        }
        self.pkt_num = self.pkt_num + 1;
        self.seq = if hdr.seq == 255u8 {
            0u8
        } else {
            hdr.seq + 1
        };
        self.got_pkts = self.got_pkts + 1;
        self.last_timestamp = hdr.timestamp;
        if is_eof {
            let size = if self.variable_length {
                offset + datalen
            } else {
                offset + self.last_pkt_size
            };
            self.finish_frame();
            assert(self@ =~= accept_step(s0, pkt@, opt_nat(got)).0);
            Some(size)
        } else {
            assert(self@ =~= accept_step(s0, pkt@, opt_nat(got)).0);
            got
        }
    }

    /// Process a single USB isoc packet.
    ///
    /// Returns `Some(frame_size)` when a complete frame is assembled; the
    /// frame data is then at the start of `self.raw_buf`.
    pub fn process_packet(&mut self, pkt: &[u8]) -> (r: Option<usize>)
        requires
            stream_wf(old(self)@),
            old(self).synced && pkt_is_valid(pkt@) ==> old(self).pkts_per_frame > 0,
            step_fits(old(self)@, pkt@),
        ensures
            stream_wf(final(self)@),
            final(self)@ == step(old(self)@, pkt@).0,
            opt_nat(r) == step(old(self)@, pkt@).1,
    {
        let ghost s0 = self@;
        let ghost p = pkt@;
        if pkt.len() < PACKET_HEADER_SIZE {
            return None;
        }
        let hdr = match PacketHeader::from_bytes(pkt) {
            Some(h) => h,
            None => {
                return None;
            },
        };
        if !hdr.is_valid_magic() {
            return None;
        }
        assert(pkt_is_valid(p));
        if !self.synced {
            if hdr.is_sof(self.stream_flag) {
                return self.sync_on_packet(pkt, &hdr);
            } else {
                return None;
            }
        }
        assert(step(s0, p) == synced_step(s0, p));
        proof {
            lemma_lost_step_counters(s0, p);
        }
        let (got_frame_size, stopped) = self.account_lost(pkt, hdr.seq);
        if stopped {
            return None;
        }
        let ghost s1 = self@;
        let datalen = pkt.len() - PACKET_HEADER_SIZE;
        let is_eof = hdr.is_eof(self.stream_flag);
        let expected_pkt_size = if self.pkt_num == self.pkts_per_frame - 1 {
            self.last_pkt_size
        } else {
            self.pkt_size
        };
        let sof = self.stream_flag | 1u8;
        let mof = self.stream_flag | 2u8;
        let eof = self.stream_flag | 5u8;
        if !self.variable_length {
            let ok = (self.pkt_num == 0 && hdr.flag == sof) || (self.pkt_num == self.pkts_per_frame
                - 1 && hdr.flag == eof) || (self.pkt_num > 0 && self.pkt_num
                < self.pkts_per_frame - 1 && hdr.flag == mof);
            if !ok {
                self.synced = false;
                assert(self@ =~= unsync(s1));
                return got_frame_size;
            }
            if datalen > expected_pkt_size && !is_eof {
                return got_frame_size;
            }
        } else {
            let ok = (self.pkt_num == 0 && hdr.flag == sof) || (self.pkt_num < self.pkts_per_frame
                && (hdr.flag == mof || hdr.flag == eof));
            if !ok || datalen > expected_pkt_size || (datalen < expected_pkt_size && !is_eof) {
                self.synced = false;
                assert(self@ =~= unsync(s1));
                return got_frame_size;
            }
        }
        self.store_packet(pkt, &hdr, got_frame_size)
    }
}

/// The counters of the loss accounting are no larger than those of the
/// whole step.
proof fn lemma_lost_step_counters(s: StreamModel, pkt: Seq<u8>)
    requires
        pkt_is_valid(pkt),
        s.synced,
    ensures
        lost_step(s, pkt).0.lost_pkts <= step(s, pkt).0.lost_pkts,
        lost_step(s, pkt).0.valid_frames <= step(s, pkt).0.valid_frames,
{
}

/// One step raises the lost-packet counter by at most 255 and the frame
/// counter by at most 2.
pub proof fn lemma_step_counter_growth(s: StreamModel, pkt: Seq<u8>)
    ensures
        step(s, pkt).0.lost_pkts <= s.lost_pkts + 255,
        step(s, pkt).0.valid_frames <= s.valid_frames + 2,
{
}

impl PacketStream {
    /// Whether the counters have room for any packet: when this holds,
    /// `process_packet` can take any packet.
    pub fn counters_have_room(&self) -> (r: bool)
        ensures
            r == (self.lost_pkts <= usize::MAX - 255 && self.valid_frames <= usize::MAX - 2),
            r ==> forall|pkt: Seq<u8>| #[trigger] step_fits(self@, pkt),
    {
        let r = self.lost_pkts <= usize::MAX - 255 && self.valid_frames <= usize::MAX - 2;
        proof {
            if r {
                assert forall|pkt: Seq<u8>| #[trigger] step_fits(self@, pkt) by {
                    lemma_step_counter_growth(self@, pkt);
                }
            }
        }
        r
    }
}

/// Processing packets one after the other: the final state and the result of
/// each call.
pub open spec fn run(s: StreamModel, pkts: Seq<Seq<u8>>) -> (StreamModel, Seq<Option<nat>>)
    decreases pkts.len(),
{
    if pkts.len() == 0 {
        (s, seq![])
    } else {
        let prev = run(s, pkts.drop_last());
        let next = step(prev.0, pkts.last());
        (next.0, prev.1.push(next.1))
    }
}

/// The start, middle and end flags of a stream differ from each other.
pub open spec fn distinct_flags(stream_flag: u8) -> bool {
    &&& sof_flag(stream_flag) != mof_flag(stream_flag)
    &&& sof_flag(stream_flag) != eof_flag(stream_flag)
    &&& mof_flag(stream_flag) != eof_flag(stream_flag)
}

/// The `k`th packet of a frame sent in order: it carries the sequence number
/// `first_seq + k`, the start flag first, the end flag last and the middle
/// flag in between, and a payload of a whole packet except for the last,
/// which carries the rest of the frame.
pub open spec fn is_frame_packet(s: StreamModel, pkts: Seq<Seq<u8>>, first_seq: u8, k: int) -> bool {
    let p = pkts[k];
    let ppf = s.pkts_per_frame as int;
    &&& pkt_is_valid(p)
    &&& pkt_seq(p) as int == (first_seq + k) % 256
    &&& pkt_flag(p) == (if k == 0 {
        sof_flag(s.stream_flag)
    } else if k == ppf - 1 {
        eof_flag(s.stream_flag)
    } else {
        mof_flag(s.stream_flag)
    })
    &&& pkt_payload(p).len() == (if k == ppf - 1 {
        s.last_pkt_size
    } else {
        s.pkt_size
    })
}

/// The payloads of the first `k` packets, one after the other.
pub open spec fn frame_payload(pkts: Seq<Seq<u8>>, k: nat) -> Seq<u8>
    decreases k,
{
    if k == 0 || k > pkts.len() {
        seq![]
    } else {
        frame_payload(pkts, (k - 1) as nat) + pkt_payload(pkts[k - 1])
    }
}

/// The layout of a frame: it takes `pkts_per_frame - 1` whole packets and a
/// last packet of `last_pkt_size` bytes, and the frame buffer has its size.
pub open spec fn frame_layout(s: StreamModel) -> bool {
    &&& s.pkts_per_frame >= 2
    &&& 1 <= s.last_pkt_size
    &&& s.frame_size == (s.pkts_per_frame - 1) * s.pkt_size + s.last_pkt_size
    &&& s.raw_buf.len() == s.frame_size
}

/// What the first `k` packets of an in-order frame leave behind.
pub open spec fn frame_prefix_state(s: StreamModel, t: StreamModel, pkts: Seq<Seq<u8>>, first_seq: u8, k: nat) -> bool {
    &&& t.synced
    &&& t.pkt_num == k
    &&& t.got_pkts <= t.pkt_num
    &&& t.seq as int == (first_seq + k) % 256
    &&& t.stream_flag == s.stream_flag
    &&& t.variable_length == s.variable_length
    &&& t.pkts_per_frame == s.pkts_per_frame
    &&& t.pkt_size == s.pkt_size
    &&& t.last_pkt_size == s.last_pkt_size
    &&& t.frame_size == s.frame_size
    &&& t.valid_frames == s.valid_frames
    &&& t.lost_pkts == s.lost_pkts
    &&& t.raw_buf.len() == s.raw_buf.len()
    &&& t.raw_buf.take((k * s.pkt_size) as int) == frame_payload(pkts, k)
}

proof fn lemma_frame_payload_len(s: StreamModel, pkts: Seq<Seq<u8>>, first_seq: u8, k: nat)
    requires
        k <= s.pkts_per_frame - 1,
        pkts.len() == s.pkts_per_frame,
        forall|i: int| 0 <= i < s.pkts_per_frame ==> is_frame_packet(s, pkts, first_seq, i),
    ensures
        frame_payload(pkts, k).len() == k * s.pkt_size,
    decreases k,
{
    if k > 0 {
        lemma_frame_payload_len(s, pkts, first_seq, (k - 1) as nat);
        assert(is_frame_packet(s, pkts, first_seq, k - 1));
        assert(frame_payload(pkts, k).len() == frame_payload(pkts, (k - 1) as nat).len() + s.pkt_size);
        let km1 = (k - 1) as nat;
        assert(k * s.pkt_size == km1 * s.pkt_size + s.pkt_size) by (nonlinear_arith)
            requires
                k == km1 + 1,
        ;
    } else {
        assert(0 * s.pkt_size == 0) by (nonlinear_arith);
    }
}

#[verifier::spinoff_prover]
#[verifier::rlimit(40)]
proof fn lemma_frame_prefix(s: StreamModel, pkts: Seq<Seq<u8>>, first_seq: u8, k: nat)
    requires
        stream_wf(s),
        !s.variable_length,
        distinct_flags(s.stream_flag),
        frame_layout(s),
        !s.synced || (s.pkt_num == 0 && s.seq == first_seq),
        pkts.len() == s.pkts_per_frame,
        forall|i: int| 0 <= i < s.pkts_per_frame ==> is_frame_packet(s, pkts, first_seq, i),
        1 <= k <= s.pkts_per_frame - 1,
    ensures
        frame_prefix_state(s, run(s, pkts.take(k as int)).0, pkts, first_seq, k),
        forall|i: int| 0 <= i < k ==> (#[trigger] run(s, pkts.take(k as int)).1[i]) is None,
        run(s, pkts.take(k as int)).1.len() == k,
    decreases k,
{
    let ps = s.pkt_size;
    let ppf = s.pkts_per_frame;
    let pk = pkts.take(k as int);
    assert(pk.drop_last() =~= pkts.take(k - 1));
    assert(pk.last() == pkts[k - 1]);
    let p = pkts[k - 1];
    assert(is_frame_packet(s, pkts, first_seq, k - 1));
    lemma_frame_payload_len(s, pkts, first_seq, (k - 1) as nat);
    vstd::arithmetic::mul::lemma_mul_inequality(k as int, ppf - 1, ps as int);
    vstd::arithmetic::mul::lemma_mul_is_distributive_add_other_way(ps as int, k - 1, 1);
    if k == 1 {
        assert(pkts.take(0) =~= Seq::<Seq<u8>>::empty());
        let t0 = run(s, pkts.take(0)).0;
        assert(t0 == s);
        let t1 = step(s, p).0;
        assert(pkt_payload(p).take(ps as int) =~= pkt_payload(p));
        assert(frame_payload(pkts, 1) =~= pkt_payload(p));
        assert(t1.raw_buf.take(ps as int) =~= frame_payload(pkts, 1));
    } else {
        lemma_frame_prefix(s, pkts, first_seq, (k - 1) as nat);
        let prev = run(s, pkts.take(k - 1));
        let t = prev.0;
        let t1 = step(t, p).0;
        let off = ((k - 1) * ps) as int;
        assert(off + ps <= s.frame_size);
        assert(pkt_payload(p).take(ps as int) =~= pkt_payload(p));
        assert(t1.raw_buf.take((k * ps) as int) =~= t.raw_buf.take(off) + pkt_payload(p));
        assert(t1.raw_buf.take((k * ps) as int) =~= frame_payload(pkts, k));
        assert forall|i: int| 0 <= i < k implies (#[trigger] run(s, pk).1[i]) is None by {
            if i < k - 1 {
                assert(run(s, pk).1[i] == prev.1[i]);
            }
        }
    }
}

/// A frame sent in order is reassembled: from a stream that is not synced
/// (or synced at the start of a frame), processing the packets of one frame
/// in order completes that frame on its last packet and on no other, with
/// the size of the frame, and leaves the payloads one after the other in the
/// frame buffer; the stream stays synced and expects the next frame.
pub proof fn lemma_whole_frame_reassembled(s: StreamModel, pkts: Seq<Seq<u8>>, first_seq: u8)
    requires
        stream_wf(s),
        !s.variable_length,
        distinct_flags(s.stream_flag),
        frame_layout(s),
        !s.synced || (s.pkt_num == 0 && s.seq == first_seq),
        pkts.len() == s.pkts_per_frame,
        forall|i: int| 0 <= i < s.pkts_per_frame ==> is_frame_packet(s, pkts, first_seq, i),
    ensures
        run(s, pkts).0.raw_buf == frame_payload(pkts, s.pkts_per_frame),
        run(s, pkts).1.len() == s.pkts_per_frame,
        run(s, pkts).1.last() == Some(s.frame_size),
        forall|i: int| 0 <= i < s.pkts_per_frame - 1 ==> (#[trigger] run(s, pkts).1[i]) is None,
        run(s, pkts).0.synced,
        run(s, pkts).0.pkt_num == 0,
        run(s, pkts).0.seq as int == (first_seq + s.pkts_per_frame) % 256,
        run(s, pkts).0.valid_frames == s.valid_frames + 1,
        run(s, pkts).0.timestamp == pkt_timestamp(pkts.last()),
{
    let ppf = s.pkts_per_frame;
    let ps = s.pkt_size;
    let k = (ppf - 1) as nat;
    lemma_frame_prefix(s, pkts, first_seq, k);
    assert(pkts.drop_last() =~= pkts.take(k as int));
    let prev = run(s, pkts.take(k as int));
    let t = prev.0;
    let p = pkts.last();
    assert(is_frame_packet(s, pkts, first_seq, k as int));
    assert(p == pkts[k as int]);
    lemma_frame_payload_len(s, pkts, first_seq, k);
    let off = (k * ps) as int;
    let t1 = step(t, p).0;
    assert(pkt_payload(p).take(s.last_pkt_size as int) =~= pkt_payload(p));
    assert(t1.raw_buf =~= t.raw_buf.take(off) + pkt_payload(p));
    assert(frame_payload(pkts, ppf) =~= frame_payload(pkts, k) + pkt_payload(p));
    assert forall|i: int| 0 <= i < ppf - 1 implies (#[trigger] run(s, pkts).1[i]) is None by {
        assert(run(s, pkts).1[i] == prev.1[i]);
    }
}

} // verus!

verus! {

/// The shape of a reassembler of fixed-size frames: a non-empty frame buffer
/// of `frame_size` bytes, split into `pkts_per_frame` packets of which all
/// but the last carry `pkt_size` bytes.
pub open spec fn frame_shape(s: StreamModel) -> bool {
    &&& stream_wf(s)
    &&& !s.variable_length
    &&& s.frame_size > 0
    &&& s.raw_buf.len() == s.frame_size
    &&& s.pkts_per_frame >= 1
    &&& (s.pkts_per_frame - 1) * s.pkt_size + s.last_pkt_size == s.frame_size
}

proof fn lemma_packet_split(f: int, p: int)
    requires
        f > 0,
        p > 0,
    ensures
        (f + p - 1) / p >= 1,
        ((f + p - 1) / p - 1) * p + (if f % p == 0 {
            p
        } else {
            f % p
        }) == f,
{
    let q = f / p;
    let r = f % p;
    vstd::arithmetic::div_mod::lemma_fundamental_div_mod(f, p);
    vstd::arithmetic::div_mod::lemma_mod_pos_bound(f, p);
    assert(f == p * q + r);
    assert(p * q == q * p) by (nonlinear_arith);
    if r == 0 {
        assert(f + p - 1 == q * p + (p - 1));
        vstd::arithmetic::div_mod::lemma_fundamental_div_mod_converse_div(f + p - 1, p, q, p - 1);
        assert(q >= 1) by (nonlinear_arith)
            requires
                f == q * p,
                f > 0,
                p > 0,
        ;
        assert((q - 1) * p + p == q * p) by (nonlinear_arith);
    } else {
        assert(f + p - 1 == (q + 1) * p + (r - 1)) by (nonlinear_arith)
            requires
                f == q * p + r,
        ;
        vstd::arithmetic::div_mod::lemma_fundamental_div_mod_converse_div(
            f + p - 1,
            p,
            q + 1,
            r - 1,
        );
        assert(q >= 0) by (nonlinear_arith)
            requires
                f == q * p + r,
                f > 0,
                p > 0,
                r < p,
        ;
    }
}

/// A fresh reassembler of a non-empty frame has the shape of its frame.
pub proof fn lemma_fresh_stream_shape(stream_flag: u8, pkt_size: nat, frame_size: nat)
    requires
        pkt_size > 0,
        frame_size > 0,
        frame_size + pkt_size <= usize::MAX,
    ensures
        frame_shape(fresh_stream(stream_flag, pkt_size, frame_size)),
{
    let s = fresh_stream(stream_flag, pkt_size, frame_size);
    lemma_packet_split(frame_size as int, pkt_size as int);
    let t = (frame_size + pkt_size - 1) as int;
    vstd::arithmetic::div_mod::lemma_fundamental_div_mod(t, pkt_size as int);
    vstd::arithmetic::div_mod::lemma_mod_pos_bound(t, pkt_size as int);
    vstd::arithmetic::mul::lemma_mul_is_commutative(s.pkts_per_frame as int, pkt_size as int);
    vstd::arithmetic::div_mod::lemma_mod_pos_bound(frame_size as int, pkt_size as int);
}

proof fn lemma_write_at_len(buf: Seq<u8>, offset: int, data: Seq<u8>)
    requires
        0 <= offset,
        offset + data.len() <= buf.len(),
    ensures
        write_at(buf, offset, data).len() == buf.len(),
{
}

proof fn lemma_accept_shape(s: StreamModel, pkt: Seq<u8>, got: Option<nat>)
    requires
        frame_shape(s),
        flag_fits(s, pkt_flag(pkt)),
        got matches Some(g) ==> g <= s.frame_size,
    ensures
        frame_shape(accept_step(s, pkt, got).0),
        accept_step(s, pkt, got).1 matches Some(n) ==> n <= s.frame_size,
{
    let data = pkt_payload(pkt);
    let offset = s.pkt_num * s.pkt_size;
    let n = min_nat(data.len(), sat_sub(s.raw_buf.len(), offset));
    if n > 0 {
        lemma_write_at_len(s.raw_buf, offset as int, data.take(n as int));
    }
    assert(s.pkt_num <= s.pkts_per_frame - 1);
    assert(offset <= (s.pkts_per_frame - 1) * s.pkt_size) by (nonlinear_arith)
        requires
            offset == s.pkt_num * s.pkt_size,
            s.pkt_num <= s.pkts_per_frame - 1,
    ;
}

/// Over a reassembler of fixed-size frames, processing a packet keeps the
/// shape of the frame, and a completed frame lies within the frame buffer.
pub proof fn lemma_step_frame_shape(s: StreamModel, pkt: Seq<u8>)
    requires
        frame_shape(s),
    ensures
        frame_shape(step(s, pkt).0),
        step(s, pkt).1 matches Some(n) ==> n <= s.frame_size,
{
    if !pkt_is_valid(pkt) {
    } else if !s.synced {
        if pkt_flag(pkt) == sof_flag(s.stream_flag) {
            let data = pkt_payload(pkt);
            let n = min_nat(data.len(), s.raw_buf.len());
            if n > 0 {
                lemma_write_at_len(s.raw_buf, 0, data.take(n as int));
            }
            assert(s.last_pkt_size <= s.frame_size) by (nonlinear_arith)
                requires
                    (s.pkts_per_frame - 1) * s.pkt_size + s.last_pkt_size == s.frame_size,
                    s.pkts_per_frame >= 1,
            ;
        }
    } else {
        let (s1, got, stop) = lost_step(s, pkt);
        assert(frame_shape(s1));
        if !stop && flag_fits(s1, pkt_flag(pkt)) {
            lemma_accept_shape(s1, pkt, got);
        }
    }
}

} // verus!

verus! {

/// A packet too short for a header, or without the magic `"RB"`, is
/// dropped: the reassembler stays as it was and no frame completes.
pub proof fn lemma_invalid_packet_ignored(s: StreamModel, pkt: Seq<u8>)
    requires
        pkt.len() < PACKET_HEADER_SIZE || pkt[0] != 82 || pkt[1] != 66,
    ensures
        step(s, pkt) == (s, Option::<nat>::None),
{
}

/// An unsynced reassembler ignores every valid packet but the start of a
/// frame of its own stream.
pub proof fn lemma_unsynced_waits_for_start(s: StreamModel, pkt: Seq<u8>)
    requires
        !s.synced,
        pkt_flag(pkt) != sof_flag(s.stream_flag),
    ensures
        step(s, pkt) == (s, Option::<nat>::None),
{
}

} // verus!

verus! {

/// Processing a packet keeps the size of the frame buffer.
pub proof fn lemma_step_keeps_buffer_len(s: StreamModel, pkt: Seq<u8>)
    ensures
        step(s, pkt).0.raw_buf.len() == s.raw_buf.len(),
{
    if !pkt_is_valid(pkt) {
    } else if !s.synced {
        if pkt_flag(pkt) == sof_flag(s.stream_flag) {
            let data = pkt_payload(pkt);
            let n = min_nat(data.len(), s.raw_buf.len());
            if n > 0 {
                lemma_write_at_len(s.raw_buf, 0, data.take(n as int));
            }
        }
    } else {
        let (s1, got, stop) = lost_step(s, pkt);
        if !stop && flag_fits(s1, pkt_flag(pkt)) {
            let data = pkt_payload(pkt);
            let offset = s1.pkt_num * s1.pkt_size;
            let n = min_nat(data.len(), sat_sub(s1.raw_buf.len(), offset));
            if n > 0 {
                lemma_write_at_len(s1.raw_buf, offset as int, data.take(n as int));
            }
        }
    }
}

} // verus!

verus! {

/// A reassembler of fixed-size frames of at least two packets, on a stream
/// whose start, middle and end flags differ, which when synced is within a
/// frame.
pub open spec fn fixed_stream(s: StreamModel) -> bool {
    &&& frame_shape(s)
    &&& distinct_flags(s.stream_flag)
    &&& s.pkts_per_frame >= 2
    &&& s.synced ==> s.pkt_num < s.pkts_per_frame
}

/// A fresh reassembler of a frame larger than one packet, on a stream flag
/// with its three low bits clear (as the depth and the video stream have),
/// is a reassembler of fixed-size frames.
pub proof fn lemma_fresh_fixed_stream(stream_flag: u8, pkt_size: nat, frame_size: nat)
    requires
        stream_flag & 7 == 0,
        0 < pkt_size < frame_size,
        frame_size + pkt_size <= usize::MAX,
    ensures
        fixed_stream(fresh_stream(stream_flag, pkt_size, frame_size)),
{
    lemma_fresh_stream_shape(stream_flag, pkt_size, frame_size);
    let f = stream_flag;
    assert((f | 1u8) != (f | 2u8) && (f | 1u8) != (f | 5u8) && (f | 2u8) != (f | 5u8)) by (bit_vector)
        requires
            f & 7u8 == 0u8,
    ;
    let t = (frame_size + pkt_size - 1) as int;
    let p = pkt_size as int;
    vstd::arithmetic::div_mod::lemma_fundamental_div_mod(t, p);
    vstd::arithmetic::div_mod::lemma_mod_pos_bound(t, p);
    let q = t / p;
    assert(q >= 2) by (nonlinear_arith)
        requires
            t == p * q + t % p,
            0 <= t % p < p,
            t >= 2 * p,
    ;
}

/// Over a reassembler of fixed-size frames, each packet keeps it one; a
/// completed frame always has the frame's size; a frame is reported exactly
/// when the count of frames grows; and lost packets are never uncounted.
pub proof fn lemma_fixed_stream_step(s: StreamModel, pkt: Seq<u8>)
    requires
        fixed_stream(s),
    ensures
        fixed_stream(step(s, pkt).0),
        step(s, pkt).1 matches Some(m) ==> m == s.frame_size,
        step(s, pkt).1 is Some <==> step(s, pkt).0.valid_frames > s.valid_frames,
        step(s, pkt).0.lost_pkts >= s.lost_pkts,
        step(s, pkt).0.frame_size == s.frame_size,
{
    lemma_step_frame_shape(s, pkt);
    if !pkt_is_valid(pkt) {
    } else if !s.synced {
    } else {
        let (s1, got, stop) = lost_step(s, pkt);
        let flag = pkt_flag(pkt);
        assert(got matches Some(g) ==> g == s.frame_size);
        assert(got is Some <==> s1.valid_frames > s.valid_frames);
        assert(s1.valid_frames >= s.valid_frames);
        if !stop && flag_fits(s1, flag) {
            assert(s1.pkt_num <= s1.pkts_per_frame - 1);
            if flag == eof_flag(s.stream_flag) {
                assert(s1.pkt_num == s1.pkts_per_frame - 1);
                let offset = s1.pkt_num * s1.pkt_size;
                assert(offset + s1.last_pkt_size == s.frame_size);
            }
        }
    }
}


/// When packets are lost across the end of a frame, the lost frame is
/// reported and the stream goes on at its place in the next frame: with
/// `left` packets of the frame still missing and `lost` packets lost in all
/// (at most five), the next packet that arrives is packet `lost - left` of
/// the new frame. Such a packet with the flag of that place (the start flag
/// where the loss ended exactly at the frame's end, the middle flag
/// otherwise) and the payload of a whole packet is accepted there: the
/// stream stays synced, stores the payload at that packet's offset, and
/// counts the lost packets.
pub proof fn lemma_loss_across_frame_end(s: StreamModel, pkt: Seq<u8>, lost: nat)
    requires
        fixed_stream(s),
        s.synced,
        pkt_is_valid(pkt),
        1 <= lost <= 5,
        pkt_seq(pkt) as int == (s.seq + lost) % 256,
        s.pkts_per_frame - s.pkt_num <= lost,
        lost - (s.pkts_per_frame - s.pkt_num) < s.pkts_per_frame - 1,
        pkt_flag(pkt) == if lost == s.pkts_per_frame - s.pkt_num {
            sof_flag(s.stream_flag)
        } else {
            mof_flag(s.stream_flag)
        },
        pkt_payload(pkt).len() <= s.pkt_size,
    ensures
        ({
            let (t, got) = step(s, pkt);
            let j = lost - (s.pkts_per_frame - s.pkt_num);
            let data = pkt_payload(pkt);
            let offset = j * s.pkt_size;
            &&& got == Some(s.frame_size)
            &&& t.synced
            &&& t.pkt_num == j + 1
            &&& t.got_pkts == 1
            &&& t.valid_frames == s.valid_frames + 1
            &&& t.lost_pkts == s.lost_pkts + lost
            &&& t.seq == next_seq(pkt_seq(pkt))
            &&& t.raw_buf == write_at(
                s.raw_buf,
                offset,
                data.take(min_nat(data.len(), sat_sub(s.raw_buf.len(), offset as nat)) as int),
            )
        }),
{
    let a = pkt_seq(pkt) as int;
    let b = s.seq as int;
    assert((a - b) % 256 == lost) by (nonlinear_arith)
        requires
            a == (b + lost) % 256,
            0 <= b < 256,
            1 <= lost <= 5,
    ;
    assert(seq_gap(pkt_seq(pkt), s.seq) == lost);
    let (s1, got, stop) = lost_step(s, pkt);
    assert(!stop);
    assert(s1.pkt_num == lost - (s.pkts_per_frame - s.pkt_num));
    assert(got == Some(s.frame_size));
}

/// Packets lost inside a frame move the stream on by as many places: with
/// `lost` packets lost (at most five) and more than that still missing from
/// the frame, the next packet that arrives is taken as packet
/// `pkt_num + lost` of the same frame. Such a middle packet with the payload
/// of a whole packet is accepted there, no frame is reported, and the lost
/// packets are counted. A loss of more than five packets drops sync.
pub proof fn lemma_loss_inside_frame(s: StreamModel, pkt: Seq<u8>, lost: nat)
    requires
        fixed_stream(s),
        s.synced,
        pkt_is_valid(pkt),
        1 <= lost <= 255,
        pkt_seq(pkt) as int == (s.seq + lost) % 256,
    ensures
        lost > 5 ==> !step(s, pkt).0.synced && step(s, pkt).1 is None && step(s, pkt).0.lost_pkts
            == s.lost_pkts + lost,
        (lost <= 5 && s.pkt_num + lost < s.pkts_per_frame - 1 && pkt_flag(pkt) == mof_flag(
            s.stream_flag,
        ) && pkt_payload(pkt).len() <= s.pkt_size) ==> ({
            let (t, got) = step(s, pkt);
            let data = pkt_payload(pkt);
            let offset = (s.pkt_num + lost) * s.pkt_size;
            &&& got is None
            &&& t.synced
            &&& t.pkt_num == s.pkt_num + lost + 1
            &&& t.got_pkts == s.got_pkts + 1
            &&& t.valid_frames == s.valid_frames
            &&& t.lost_pkts == s.lost_pkts + lost
            &&& t.seq == next_seq(pkt_seq(pkt))
            &&& t.raw_buf == write_at(
                s.raw_buf,
                offset as int,
                data.take(min_nat(data.len(), sat_sub(s.raw_buf.len(), offset)) as int),
            )
        }),
{
    let a = pkt_seq(pkt) as int;
    let b = s.seq as int;
    assert((a - b) % 256 == lost) by (nonlinear_arith)
        requires
            a == (b + lost) % 256,
            0 <= b < 256,
            1 <= lost <= 255,
    ;
    assert(seq_gap(pkt_seq(pkt), s.seq) == lost);
}

} // verus!
