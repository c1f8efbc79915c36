//! The bridge between isochronous packets and frame delivery: a reassembler
//! together with the liveness state of its stream.

use vstd::prelude::*;

use crate::stream::{
    PacketStream, fresh_stream, frame_shape, lemma_fresh_stream_shape, lemma_step_frame_shape,
    lemma_step_keeps_buffer_len, opt_nat, pkt_is_valid, step, step_fits, stream_wf,
};

verus! {

/// Frame assembly state of one stream. Each complete frame is handed to the
/// receiver together with the timestamp of the stream.
pub struct FrameState {
    pub packet_stream: PacketStream,
    pub dead: bool,
    pub dead_xfers: usize,
}

impl FrameState {
    /// A live frame state over a fresh reassembler.
    pub fn new(stream_flag: u8, pkt_size: usize, frame_size: usize) -> (r: Self)
        requires
            pkt_size > 0,
            frame_size + pkt_size <= usize::MAX,
        ensures
            stream_wf(r.packet_stream@),
            frame_size > 0 ==> frame_shape(r.packet_stream@),
            r.packet_stream@ == fresh_stream(stream_flag, pkt_size as nat, frame_size as nat),
            !r.dead,
            r.dead_xfers == 0,
    {
        proof {
            if frame_size > 0 {
                lemma_fresh_stream_shape(stream_flag, pkt_size as nat, frame_size as nat);
            }
        }
        FrameState { packet_stream: PacketStream::new(stream_flag, pkt_size, frame_size), dead: false, dead_xfers: 0 }
    }

    /// Processes one raw isochronous packet. Returns whether the stream is
    /// still alive, and the size of the frame that the packet completed, if
    /// any: that frame is then the first bytes of `packet_stream.raw_buf`,
    /// stamped with `packet_stream.timestamp`. A completed frame must lie
    /// within the frame buffer.
    pub fn process_packet(&mut self, packet: &[u8]) -> (r: (bool, Option<usize>))
        requires
            stream_wf(old(self).packet_stream@),
            old(self).packet_stream.synced && pkt_is_valid(packet@) ==> old(self).packet_stream.pkts_per_frame > 0,
            step_fits(old(self).packet_stream@, packet@),
            step(old(self).packet_stream@, packet@).1 matches Some(n) ==> n <= old(
                self,
            ).packet_stream.raw_buf@.len(),
        ensures
            stream_wf(final(self).packet_stream@),
            final(self).packet_stream@ == step(old(self).packet_stream@, packet@).0,
            opt_nat(r.1) == step(old(self).packet_stream@, packet@).1,
            r.1 matches Some(n) ==> n <= final(self).packet_stream.raw_buf@.len(),
            r.0 == !old(self).dead,
            final(self).dead == old(self).dead,
            final(self).dead_xfers == old(self).dead_xfers,
    {
        proof {
            lemma_step_keeps_buffer_len(self.packet_stream@, packet@);
        }
        let result = self.packet_stream.process_packet(packet);
        (!self.dead, result)
    }

    /// Whether the reassembler has the shape of fixed-size frames, in which
    /// case `process_packet` takes any packet whose counters have room.
    pub fn has_frame_shape(&self) -> (r: bool)
        ensures
            r == frame_shape(self.packet_stream@),
            r ==> forall|pkt: Seq<u8>|
                {
                    &&& (self.packet_stream.synced && pkt_is_valid(pkt) ==> self.packet_stream.pkts_per_frame > 0)
                    &&& (#[trigger] step(self.packet_stream@, pkt).1 matches Some(n) ==> n
                        <= self.packet_stream.raw_buf@.len())
                },
    {
        let s = &self.packet_stream;
        let r = if s.pkt_size == 0 || s.last_pkt_size > s.pkt_size || s.got_pkts > s.pkt_num || s.variable_length
            || s.frame_size == 0 || s.raw_buf.len() != s.frame_size || s.pkts_per_frame == 0 {
            false
        } else {
            match s.pkts_per_frame.checked_mul(s.pkt_size) {
                None => false,
                Some(total) => {
                    assert(total >= s.pkt_size) by (nonlinear_arith)
                        requires
                            total == s.pkts_per_frame * s.pkt_size,
                            s.pkts_per_frame >= 1,
                    ;
                    total - s.pkt_size + s.last_pkt_size == s.frame_size
                },
            }
        };
        proof {
            if r {
                assert(s.pkts_per_frame * s.pkt_size - s.pkt_size == (s.pkts_per_frame - 1) * s.pkt_size)
                    by (nonlinear_arith);
                assert forall|pkt: Seq<u8>| #[trigger] step(self.packet_stream@, pkt).1 matches Some(n) ==> n
                    <= self.packet_stream.raw_buf@.len() by {
                    lemma_step_frame_shape(self.packet_stream@, pkt);
                }
            } else {
                if s.pkts_per_frame > 0 && s.pkts_per_frame * s.pkt_size <= usize::MAX && s.pkt_size > 0 {
                    assert(s.pkts_per_frame * s.pkt_size - s.pkt_size == (s.pkts_per_frame - 1) * s.pkt_size)
                        by (nonlinear_arith);
                }
            }
        }
        r
    }
}

} // verus!
