//! The decisions of isochronous streaming: how the transfers share one
//! buffer, which packets of a completed transfer are delivered, when a
//! transfer is resubmitted or counted as finished, and how long a stop waits
//! for the transfers to come back.

use vstd::prelude::*;

verus! {

/// Transfers in flight per isochronous stream.
pub const NUM_XFERS: usize = 15;

/// Packets per transfer.
pub const PKTS_PER_XFER: usize = 16;

/// Depth packet buffer size.
pub const DEPTH_PKTBUF: usize = 1760;

/// Video packet buffer size.
pub const VIDEO_PKTBUF: usize = 1920;

/// How many rounds of event handling a stop waits, at most, beyond the first.
pub const STOP_WAIT_ROUNDS: u32 = 100;

/// The liveness of a stream, shared by the completion callbacks of its
/// transfers: a dead stream resubmits nothing, and every transfer that
/// will not come back again is counted in `dead_xfers`.
pub struct StreamState {
    pub dead: bool,
    pub dead_xfers: usize,
    pub pkts: usize,
    pub pkt_len: usize,
}

/// What the completion callback of a transfer does next.
#[derive(Debug, Clone, Copy, PartialEq, Eq, Structural)]
pub enum CallbackAction {
    /// The transfer is finished for good; it was counted as dead.
    Retire,
    /// The transfer completed on a live stream: deliver its packets.
    Deliver,
}

/// `dead_xfers` after one more transfer finished, wrapping as the shared
/// counter does.
pub open spec fn one_more(n: usize) -> usize {
    if n == usize::MAX {
        0
    } else {
        (n + 1) as usize
    }
}

impl StreamState {
    /// A live stream whose transfers carry `pkts` packets of `pkt_len`
    /// bytes.
    pub fn new(pkts: usize, pkt_len: usize) -> (r: Self)
        ensures
            !r.dead,
            r.dead_xfers == 0,
            r.pkts == pkts,
            r.pkt_len == pkt_len,
    {
        StreamState { dead: false, dead_xfers: 0, pkts, pkt_len }
    }

    /// Counts one more transfer as finished for good.
    pub fn count_dead(&mut self)
        ensures
            final(self).dead_xfers == one_more(old(self).dead_xfers),
            final(self).dead == old(self).dead,
            final(self).pkts == old(self).pkts,
            final(self).pkt_len == old(self).pkt_len,
    {
        self.dead_xfers = self.dead_xfers.wrapping_add(1);
    }

    /// Marks the stream dead: no transfer is resubmitted from now on.
    pub fn mark_dead(&mut self)
        ensures
            final(self).dead,
            final(self).dead_xfers == old(self).dead_xfers,
            final(self).pkts == old(self).pkts,
            final(self).pkt_len == old(self).pkt_len,
    {
        self.dead = true;
    }

    /// A transfer was submitted; a failed submission (negative `ret`) never
    /// comes back and is counted as dead.
    pub fn submitted(&mut self, ret: i32)
        ensures
            final(self).dead_xfers == if ret < 0 {
                one_more(old(self).dead_xfers)
            } else {
                old(self).dead_xfers
            },
            final(self).dead == old(self).dead,
            final(self).pkts == old(self).pkts,
            final(self).pkt_len == old(self).pkt_len,
    {
        if ret < 0 {
            self.count_dead();
        }
    }

    /// The start of the completion callback of a transfer: on a dead stream,
    /// or for a transfer that did not complete (cancelled, gone, failed), the
    /// transfer is counted as dead; otherwise its packets are delivered.
    pub fn on_completion(&mut self, completed: bool) -> (r: CallbackAction)
        ensures
            r == (if old(self).dead || !completed {
                CallbackAction::Retire
            } else {
                CallbackAction::Deliver
            }),
            final(self).dead_xfers == if r == CallbackAction::Retire {
                one_more(old(self).dead_xfers)
            } else {
                old(self).dead_xfers
            },
            final(self).dead == old(self).dead,
            final(self).pkts == old(self).pkts,
            final(self).pkt_len == old(self).pkt_len,
    {
        if self.dead || !completed {
            self.count_dead();
            CallbackAction::Retire
        } else {
            CallbackAction::Deliver
        }
    }

    /// After the packets of a transfer were delivered: whether to resubmit
    /// it. A stream that died meanwhile resubmits nothing and counts the
    /// transfer as dead.
    pub fn should_resubmit(&mut self) -> (r: bool)
        ensures
            r == !old(self).dead,
            final(self).dead_xfers == if r {
                old(self).dead_xfers
            } else {
                one_more(old(self).dead_xfers)
            },
            final(self).dead == old(self).dead,
            final(self).pkts == old(self).pkts,
            final(self).pkt_len == old(self).pkt_len,
    {
        if self.dead {
            self.count_dead();
            false
        } else {
            true
        }
    }

    /// A resubmission returned `ret`: anything but 0 means the transfer will
    /// not come back, and it is counted as dead.
    pub fn resubmitted(&mut self, ret: i32)
        ensures
            final(self).dead_xfers == if ret != 0 {
                one_more(old(self).dead_xfers)
            } else {
                old(self).dead_xfers
            },
            final(self).dead == old(self).dead,
            final(self).pkts == old(self).pkts,
            final(self).pkt_len == old(self).pkt_len,
    {
        if ret != 0 {
            self.count_dead();
        }
    }

    /// Whether a stop keeps handling events after `rounds` rounds: while
    /// some of the `num_xfers` transfers have not come back, for at most
    /// `STOP_WAIT_ROUNDS + 1` rounds.
    pub fn keep_waiting(&self, num_xfers: usize, rounds: u32) -> (r: bool)
        ensures
            r == (self.dead_xfers < num_xfers && rounds <= STOP_WAIT_ROUNDS),
    {
        self.dead_xfers < num_xfers && rounds <= STOP_WAIT_ROUNDS
    }
}

/// Whether packet `i` of a transfer, with `actual` bytes received, is
/// delivered: it carries data and lies within the transfer buffer.
pub open spec fn delivered(i: int, actual: int, pkt_len: int, buf_len: int) -> bool {
    actual > 0 && i * pkt_len + actual <= buf_len
}

/// The packets of a completed transfer that are delivered, in order, each
/// as its offset in the transfer buffer and its length. Packet `i` starts at
/// `i * pkt_len`.
pub open spec fn delivered_packets(actual: Seq<usize>, pkt_len: int, buf_len: int) -> Seq<(int, int)>
    decreases actual.len(),
{
    if actual.len() == 0 {
        seq![]
    } else {
        let i = actual.len() - 1;
        let prev = delivered_packets(actual.drop_last(), pkt_len, buf_len);
        if delivered(i, actual.last() as int, pkt_len, buf_len) {
            prev.push((i * pkt_len, actual.last() as int))
        } else {
            prev
        }
    }
}

/// The packets to deliver from a completed transfer whose packet `i`
/// received `actual[i]` bytes at offset `i * pkt_len` of a buffer of
/// `buf_len` bytes: those that carry data and lie within the buffer.
pub fn packets_to_deliver(actual: &[usize], pkt_len: usize, buf_len: usize) -> (r: Vec<(usize, usize)>)
    requires
        actual@.len() * pkt_len <= usize::MAX,
    ensures
        r@.len() == delivered_packets(actual@, pkt_len as int, buf_len as int).len(),
        forall|k: int|
            0 <= k < r@.len() ==> (#[trigger] r@[k]).0 as int == delivered_packets(
                actual@,
                pkt_len as int,
                buf_len as int,
            )[k].0 && r@[k].1 as int == delivered_packets(actual@, pkt_len as int, buf_len as int)[k].1,
{
    let ghost pl = pkt_len as int;
    let ghost bl = buf_len as int;
    let mut r: Vec<(usize, usize)> = Vec::new();
    let mut i: usize = 0;
    while i < actual.len()
        invariant
            i <= actual@.len(),
            actual@.len() * pkt_len <= usize::MAX,
            pl == pkt_len,
            bl == buf_len,
            r@.len() == delivered_packets(actual@.take(i as int), pl, bl).len(),
            forall|k: int|
                0 <= k < r@.len() ==> (#[trigger] r@[k]).0 as int == delivered_packets(
                    actual@.take(i as int),
                    pl,
                    bl,
                )[k].0 && r@[k].1 as int == delivered_packets(actual@.take(i as int), pl, bl)[k].1,
        decreases actual@.len() - i,
    {
        let ghost before = actual@.take(i as int);
        assert(actual@.take(i + 1).drop_last() =~= before);
        assert(i * pkt_len <= actual@.len() * pkt_len) by (nonlinear_arith)
            requires
                i < actual@.len(),
        ;
        let offset = i * pkt_len;
        let a = actual[i];
        if a > 0 && offset <= buf_len && a <= buf_len - offset {
            r.push((offset, a));
        }
        i = i + 1;
    }
    assert(actual@.take(actual@.len() as int) =~= actual@);
    r
}

/// The packet size of a stream: the endpoint's largest isochronous packet
/// where the device reports one, else the default buffer size.
pub fn iso_packet_size(reported: i32, default: usize) -> (r: usize)
    ensures
        r == if reported > 0 {
            reported as usize
        } else {
            default
        },
{
    if reported > 0 {
        reported as usize
    } else {
        default
    }
}

/// The offsets of the transfers in the buffer they share: transfer `i`
/// takes `pkts * pkt_len` bytes from `i * pkts * pkt_len` on.
pub fn transfer_offsets(num_xfers: usize, pkts: usize, pkt_len: usize) -> (r: Vec<usize>)
    requires
        pkts * pkt_len <= usize::MAX,
        num_xfers * (pkts * pkt_len) <= usize::MAX,
    ensures
        r@.len() == num_xfers,
        forall|i: int| 0 <= i < num_xfers ==> #[trigger] r@[i] == i * (pkts * pkt_len),
{
    let step = pkts * pkt_len;
    let mut r: Vec<usize> = Vec::new();
    let mut i: usize = 0;
    while i < num_xfers
        invariant
            i <= num_xfers,
            step == pkts * pkt_len,
            num_xfers * step <= usize::MAX,
            r@.len() == i,
            forall|k: int| 0 <= k < i ==> #[trigger] r@[k] == k * step,
        decreases num_xfers - i,
    {
        assert(i * step <= num_xfers * step) by (nonlinear_arith)
            requires
                i < num_xfers,
        ;
        r.push(i * step);
        i = i + 1;
    }
    r
}

} // verus!
