use vstd::prelude::*;
use crate::dispatch::DispatchQueue;
use crate::packet::{OutputPacket, PacketModel, UNIVERSE_PAYLOAD};

verus! {

/// The sequence stamp that follows `s`: stamps cycle strictly through
/// 1..=255; 0 is reserved to mean "sequencing disabled" and is never emitted.
pub open spec fn next_seq(s: u8) -> u8 {
    if s == 255 {
        1
    } else {
        (s + 1) as u8
    }
}

/// The sequence stamp reached from `s` after `n` steps.
pub open spec fn seq_after(s: u8, n: nat) -> u8
    decreases n,
{
    if n == 0 {
        s
    } else {
        next_seq(seq_after(s, (n - 1) as nat))
    }
}

/// Per-device sequence numbers cycle strictly through 1..=255: a stamp is
/// never 0, 255 wraps to 1, and any other stamp steps to its successor.
pub proof fn lemma_sequence_cycle(s: u8)
    ensures
        next_seq(s) != 0,
        1 <= next_seq(s) <= 255,
        s == 255 ==> next_seq(s) == 1,
        s < 255 ==> next_seq(s) == s + 1,
{
}

/// Once at least one stamp has been handed out, every stamp reached stays
/// inside the 1..=255 cycle: 0 is never emitted.
pub proof fn lemma_stamps_stay_in_cycle(s: u8, n: nat)
    requires
        n >= 1,
    ensures
        1 <= seq_after(s, n) <= 255,
    decreases n,
{
    if n > 1 {
        lemma_stamps_stay_in_cycle(s, (n - 1) as nat);
    }
}

/// How many entries of `s` are set.
pub open spec fn count_true(s: Seq<bool>) -> int
    decreases s.len(),
{
    if s.len() == 0 {
        0
    } else {
        count_true(s.drop_last()) + if s.last() {
            1int
        } else {
            0int
        }
    }
}

pub proof fn lemma_count_true_bounds(s: Seq<bool>)
    ensures
        0 <= count_true(s) <= s.len(),
    decreases s.len(),
{
    if s.len() > 0 {
        lemma_count_true_bounds(s.drop_last());
    }
}

pub proof fn lemma_count_true_update(s: Seq<bool>, j: int, b: bool)
    requires
        0 <= j < s.len(),
    ensures
        count_true(s.update(j, b)) == count_true(s) - (if s[j] {
            1int
        } else {
            0int
        }) + (if b {
            1int
        } else {
            0int
        }),
    decreases s.len(),
{
    let t = s.update(j, b);
    if j == s.len() - 1 {
        assert(t.drop_last() =~= s.drop_last());
    } else {
        assert(t.drop_last() =~= s.drop_last().update(j, b));
        lemma_count_true_update(s.drop_last(), j, b);
    }
}

pub proof fn lemma_count_true_all_false(s: Seq<bool>)
    requires
        forall|i: int| 0 <= i < s.len() ==> !s[i],
    ensures
        count_true(s) == 0,
    decreases s.len(),
{
    if s.len() > 0 {
        lemma_count_true_all_false(s.drop_last());
    }
}

/// `frame` with the bytes of `data` laid over it starting at `start`; all
/// other bytes keep their previous value.
pub open spec fn write_at(frame: Seq<u8>, start: int, data: Seq<u8>) -> Seq<u8> {
    Seq::new(
        frame.len(),
        |i: int|
            if start <= i < start + data.len() {
                data[i - start]
            } else {
                frame[i]
            },
    )
}

/// A payload cut down to at most `UNIVERSE_PAYLOAD` bytes; shorter payloads
/// pass unchanged.
pub open spec fn clamp_payload(p: Seq<u8>) -> Seq<u8> {
    if p.len() <= UNIVERSE_PAYLOAD as int {
        p
    } else {
        p.subrange(0, UNIVERSE_PAYLOAD as int)
    }
}

/// Mathematical image of one output device: the flat frame buffer, the
/// arrived flags of the current frame (one per local universe), the last
/// sequence stamp handed out, the configured universe range, and the packets
/// waiting in the dispatch queue.
#[verifier::ext_equal]
pub struct DeviceModel {
    pub frame: Seq<u8>,
    pub arrived: Seq<bool>,
    pub sequence: u8,
    pub universe_count: u16,
    pub universe_offset: u16,
    pub queue: Seq<PacketModel>,
}

/// The packets one flush of `frame` enqueues: one per universe of the
/// device's range, in ascending universe order, each carrying its 510-byte
/// slice of the frame and the next sequence stamp after `seq0`. The packet
/// is addressed with the absolute universe id, `offset` plus the local
/// index.
pub open spec fn flush_packets(frame: Seq<u8>, seq0: u8, count: int, offset: u16) -> Seq<PacketModel> {
    Seq::new(
        count as nat,
        |i: int|
            PacketModel {
                universe: (offset + i) as u16,
                sequence: seq_after(seq0, (i + 1) as nat),
                payload: frame.subrange(
                    i * (UNIVERSE_PAYLOAD as int),
                    i * (UNIVERSE_PAYLOAD as int) + (UNIVERSE_PAYLOAD as int),
                ),
            },
    )
}

/// Whether adding `universe` completes the device's frame: with its arrived
/// flag set, every expected universe of the frame has arrived.
pub open spec fn add_completes(m: DeviceModel, universe: u16) -> bool {
    count_true(m.arrived.update(universe - m.universe_offset, true)) == m.universe_count
}

/// The device state after one `add_universe` call: the clamped payload is
/// laid into the frame at the universe's local slot and the universe is
/// marked arrived; when that completes the frame, the arrived flags are
/// cleared and one packet per universe is enqueued, in ascending order, each
/// stamped with the next sequence number.
pub open spec fn add_spec(m: DeviceModel, universe: u16, payload: Seq<u8>) -> DeviceModel {
    let local = universe - m.universe_offset;
    let frame1 = write_at(m.frame, local * (UNIVERSE_PAYLOAD as int), clamp_payload(payload));
    let arrived1 = m.arrived.update(local, true);
    if count_true(arrived1) == m.universe_count {
        DeviceModel {
            frame: frame1,
            arrived: Seq::new(m.universe_count as nat, |i: int| false),
            sequence: seq_after(m.sequence, m.universe_count as nat),
            universe_count: m.universe_count,
            universe_offset: m.universe_offset,
            queue: m.queue + flush_packets(
                frame1,
                m.sequence,
                m.universe_count as int,
                m.universe_offset,
            ),
        }
    } else {
        DeviceModel {
            frame: frame1,
            arrived: arrived1,
            sequence: m.sequence,
            universe_count: m.universe_count,
            universe_offset: m.universe_offset,
            queue: m.queue,
        }
    }
}

/// A freshly configured device for the input range `[lo, hi]`: a zeroed
/// frame, no universe arrived, sequence at 0 (so the first stamp handed out
/// is 1), and an empty dispatch queue.
pub open spec fn initial_device(lo: u16, hi: u16) -> DeviceModel {
    let count = (hi - lo + 1) as u16;
    DeviceModel {
        frame: Seq::new((count * UNIVERSE_PAYLOAD) as nat, |i: int| 0u8),
        arrived: Seq::new(count as nat, |i: int| false),
        sequence: 0,
        universe_count: count,
        universe_offset: lo,
        queue: Seq::empty(),
    }
}

/// One output device: it accumulates per-universe payloads into a flat frame
/// buffer, decides frame completion by counting distinct arrived universes,
/// and on completion stamps and enqueues one packet per universe on its
/// dispatch queue.
pub struct OutputDevice {
    /// Flat frame buffer, `universe_count * UNIVERSE_PAYLOAD` bytes; bytes
    /// never overwritten keep their previous value across frames.
    pub frame: Vec<u8>,
    /// Arrived flag of each local universe for the frame being assembled.
    pub arrived: Vec<bool>,
    /// How many flags of `arrived` are set.
    pub arrived_count: u16,
    /// Last sequence stamp handed out; 0 before the first flush.
    pub sequence: u8,
    /// Number of universes this device expects per frame.
    pub universe_count: u16,
    /// Absolute id of the first universe of the device's input range.
    pub universe_offset: u16,
    /// Packets flushed and not yet taken by the pacer.
    pub queue: DispatchQueue,
}

impl View for OutputDevice {
    type V = DeviceModel;

    open spec fn view(&self) -> DeviceModel {
        DeviceModel {
            frame: self.frame@,
            arrived: self.arrived@,
            sequence: self.sequence,
            universe_count: self.universe_count,
            universe_offset: self.universe_offset,
            queue: self.queue@,
        }
    }
}

impl OutputDevice {
    /// Internal consistency of a device: a nonempty universe range whose
    /// absolute ids fit `u16`, a frame buffer of exactly
    /// `universe_count * UNIVERSE_PAYLOAD` bytes, one arrived flag per
    /// universe, and an arrived count that equals the set flags.
    pub open spec fn wf(&self) -> bool {
        &&& 1 <= self.universe_count
        &&& self.universe_offset + self.universe_count - 1 <= u16::MAX
        &&& self.frame@.len() == self.universe_count as int * UNIVERSE_PAYLOAD as int
        &&& self.arrived@.len() == self.universe_count as int
        &&& self.arrived_count as int == count_true(self.arrived@)
    }

    /// Build the device for the input universe range `[lo, hi]`.
    #[verifier::loop_isolation(false)]
    pub fn new(lo: u16, hi: u16) -> (d: OutputDevice)
        requires
            lo <= hi,
            hi - lo < u16::MAX,
        ensures
            d.wf(),
            d@ == initial_device(lo, hi),
    {
        let count: u16 = hi - lo + 1;
        let frame_len: usize = (count as usize) * UNIVERSE_PAYLOAD;
        let mut frame: Vec<u8> = Vec::new();
        while frame.len() < frame_len
            invariant
                frame@ =~= Seq::new(frame@.len(), |i: int| 0u8),
                frame@.len() <= frame_len,
            decreases frame_len - frame@.len(),
        {
            frame.push(0);
        }
        let mut arrived: Vec<bool> = Vec::new();
        while arrived.len() < count as usize
            invariant
                arrived@ =~= Seq::new(arrived@.len(), |i: int| false),
                arrived@.len() <= count as int,
            decreases count - arrived@.len(),
        {
            arrived.push(false);
        }
        proof {
            lemma_count_true_all_false(arrived@);
        }
        let d = OutputDevice {
            frame,
            arrived,
            arrived_count: 0,
            sequence: 0,
            universe_count: count,
            universe_offset: lo,
            queue: DispatchQueue::new(),
        };
        proof {
            assert(d@ =~~= initial_device(lo, hi));
        }
        d
    }

    /// Advance the device's sequence counter and hand out the new stamp.
    pub fn next_sequence(&mut self) -> (s: u8)
        ensures
            s == next_seq(old(self).sequence),
            final(self).sequence == s,
            final(self).frame == old(self).frame,
            final(self).arrived == old(self).arrived,
            final(self).arrived_count == old(self).arrived_count,
            final(self).universe_count == old(self).universe_count,
            final(self).universe_offset == old(self).universe_offset,
            final(self).queue == old(self).queue,
    {
        if self.sequence == 255 {
            self.sequence = 1;
        } else {
            self.sequence = self.sequence + 1;
        }
        self.sequence
    }

    /// Slice the frame into one packet per universe, in ascending universe
    /// order, stamp each with the next sequence number, and enqueue them all
    /// on the dispatch queue. The frame bytes and arrived flags are left as
    /// they are.
    #[verifier::loop_isolation(false)]
    pub fn flush(&mut self)
        requires
            old(self).wf(),
        ensures
            final(self).wf(),
            final(self)@.frame == old(self)@.frame,
            final(self)@.arrived == old(self)@.arrived,
            final(self).arrived_count == old(self).arrived_count,
            final(self)@.universe_count == old(self)@.universe_count,
            final(self)@.universe_offset == old(self)@.universe_offset,
            final(self)@.sequence == seq_after(
                old(self)@.sequence,
                old(self)@.universe_count as nat,
            ),
            final(self)@.queue == old(self)@.queue + flush_packets(
                old(self)@.frame,
                old(self)@.sequence,
                old(self)@.universe_count as int,
                old(self)@.universe_offset,
            ),
    {
        let ghost frame0 = self.frame@;
        let ghost seq0 = self.sequence;
        let ghost queue0 = self.queue@;
        let count: u16 = self.universe_count;
        let ghost all = flush_packets(frame0, seq0, count as int, self.universe_offset);
        let mut u: u16 = 0;
        while u < count
            invariant
                u <= count,
                self.frame@ == frame0,
                self.arrived == old(self).arrived,
                self.arrived_count == old(self).arrived_count,
                self.universe_count == old(self).universe_count,
                self.universe_offset == old(self).universe_offset,
                self.sequence == seq_after(seq0, u as nat),
                self.queue@ == queue0 + all.take(u as int),
            decreases count - u,
        {
            let start: usize = (u as usize) * UNIVERSE_PAYLOAD;
            let mut data: Vec<u8> = Vec::new();
            let mut j: usize = 0;
            while j < UNIVERSE_PAYLOAD
                invariant
                    j <= UNIVERSE_PAYLOAD,
                    u < count,
                    start == u as int * UNIVERSE_PAYLOAD as int,
                    self.frame@ == frame0,
                    data@ =~= frame0.subrange(start as int, start as int + j as int),
                decreases UNIVERSE_PAYLOAD - j,
            {
                let b: u8 = self.frame[start + j];
                data.push(b);
                j = j + 1;
            }
            let s: u8 = self.next_sequence();
            let absolute: u16 = self.universe_offset + u;
            self.queue.enqueue(OutputPacket { universe: absolute, sequence: s, payload: data });
            u = u + 1;
            proof {
                assert(all[u - 1].payload =~= frame0.subrange(
                    (u - 1) * UNIVERSE_PAYLOAD as int,
                    (u - 1) * UNIVERSE_PAYLOAD as int + UNIVERSE_PAYLOAD as int,
                ));
                assert(self.queue@ =~= queue0 + all.take(u as int));
            }
        }
        proof {
            assert(all.take(count as int) =~= all);
        }
    }

    /// Lay `payload` (clamped to `UNIVERSE_PAYLOAD` bytes) into the frame at
    /// the universe's local slot, mark the universe arrived, and flush the
    /// frame when every expected universe has arrived. Returns whether this
    /// call flushed.
    #[verifier::loop_isolation(false)]
    pub fn add_universe(&mut self, universe: u16, payload: &Vec<u8>) -> (flushed: bool)
        requires
            old(self).wf(),
            old(self).universe_offset <= universe,
            universe - old(self).universe_offset < old(self).universe_count,
        ensures
            final(self).wf(),
            final(self)@ == add_spec(old(self)@, universe, payload@),
            flushed == add_completes(old(self)@, universe),
    {
        let ghost m0 = self@;
        let local: usize = (universe - self.universe_offset) as usize;
        let len: usize = if payload.len() > UNIVERSE_PAYLOAD {
            UNIVERSE_PAYLOAD
        } else {
            payload.len()
        };
        let start: usize = local * UNIVERSE_PAYLOAD;

        // Overwrite the universe's byte range in the frame buffer.
        let mut i: usize = 0;
        while i < len
            invariant
                i <= len,
                len <= UNIVERSE_PAYLOAD,
                len <= payload@.len(),
                start == local * UNIVERSE_PAYLOAD,
                local < self.universe_count,
                self.frame@.len() == m0.frame.len(),
                self.frame@ =~= write_at(m0.frame, start as int, payload@.subrange(0, i as int)),
                self.arrived == old(self).arrived,
                self.arrived_count == old(self).arrived_count,
                self.sequence == old(self).sequence,
                self.universe_count == old(self).universe_count,
                self.universe_offset == old(self).universe_offset,
                self.queue == old(self).queue,
            decreases len - i,
        {
            let b: u8 = payload[i];
            self.frame.set(start + i, b);
            i = i + 1;
        }
        proof {
            assert(payload@.subrange(0, len as int) =~= clamp_payload(payload@));
            assert(self.frame@ =~= write_at(
                m0.frame,
                start as int,
                clamp_payload(payload@),
            ));
        }

        // Mark the universe arrived; a duplicate does not change the count.
        let was_set = self.arrived[local];
        if !was_set {
            proof {
                lemma_count_true_update(self.arrived@, local as int, true);
                lemma_count_true_bounds(self.arrived@.update(local as int, true));
            }
            self.arrived.set(local, true);
            self.arrived_count = self.arrived_count + 1;
        } else {
            proof {
                lemma_count_true_update(self.arrived@, local as int, true);
                assert(self.arrived@.update(local as int, true) =~= self.arrived@);
            }
        }
        let ghost arrived1 = m0.arrived.update(local as int, true);
        proof {
            assert(self.arrived@ =~= arrived1);
        }

        // When every expected universe has arrived: clear the flags and
        // flush the completed frame.
        if self.arrived_count == self.universe_count {
            let count: u16 = self.universe_count;
            let mut k: usize = 0;
            while k < count as usize
                invariant
                    k <= count as int,
                    self.arrived@.len() == count as int,
                    forall|t: int| 0 <= t < k ==> !self.arrived@[t],
                    self.frame@ == write_at(m0.frame, start as int, clamp_payload(payload@)),
                    self.arrived_count == old(self).universe_count,
                    self.sequence == old(self).sequence,
                    self.universe_count == old(self).universe_count,
                    self.universe_offset == old(self).universe_offset,
                    self.queue == old(self).queue,
                decreases count - k,
            {
                self.arrived.set(k, false);
                k = k + 1;
            }
            proof {
                assert(self.arrived@ =~= Seq::new(count as nat, |t: int| false));
                lemma_count_true_all_false(self.arrived@);
            }
            self.arrived_count = 0;
            self.flush();
            proof {
                assert(self@ =~~= add_spec(m0, universe, payload@));
            }
            true
        } else {
            proof {
                assert(self@ =~~= add_spec(m0, universe, payload@));
            }
            false
        }
    }
}

} // verus!
