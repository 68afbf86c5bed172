use vstd::prelude::*;
use crate::device::{
    add_spec, count_true, flush_packets, lemma_count_true_all_false, lemma_count_true_update,
    lemma_stamps_stay_in_cycle, seq_after, DeviceModel,
};
use crate::packet::PacketModel;

verus! {

/// The device state after a series of `add_universe` calls: universe
/// `us[i]` with payload `ps[i]`, applied in order.
pub open spec fn apply_adds(m: DeviceModel, us: Seq<u16>, ps: Seq<Seq<u8>>) -> DeviceModel
    decreases us.len(),
{
    if us.len() == 0 {
        m
    } else {
        add_spec(apply_adds(m, us.drop_last(), ps.drop_last()), us.last(), ps.last())
    }
}

/// A frame assembled from scratch: the device expects `universe_count`
/// universes and none has arrived yet, and the calls feed every universe of
/// its input range exactly once, each with some payload.
pub open spec fn fresh_frame_inputs(m: DeviceModel, us: Seq<u16>, ps: Seq<Seq<u8>>) -> bool {
    &&& 1 <= m.universe_count
    &&& m.arrived.len() == m.universe_count as int
    &&& (forall|t: int| 0 <= t < m.arrived.len() ==> !m.arrived[t])
    &&& us.len() == m.universe_count as int
    &&& ps.len() == us.len()
    &&& (forall|i: int|
        0 <= i < us.len() ==> m.universe_offset <= #[trigger] us[i] && us[i] - m.universe_offset
            < m.universe_count)
    &&& (forall|i: int, j: int| 0 <= i < j < us.len() ==> us[i] != us[j])
}

proof fn lemma_adds_prefix(m: DeviceModel, us: Seq<u16>, ps: Seq<Seq<u8>>, k: int)
    requires
        fresh_frame_inputs(m, us, ps),
        0 <= k < m.universe_count,
    ensures
        ({
            let r = apply_adds(m, us.take(k), ps.take(k));
            &&& r.universe_count == m.universe_count
            &&& r.universe_offset == m.universe_offset
            &&& r.sequence == m.sequence
            &&& r.queue == m.queue
            &&& r.arrived.len() == m.arrived.len()
            &&& (forall|t: int|
                0 <= t < r.arrived.len() ==> (r.arrived[t] <==> exists|i: int|
                    0 <= i < k && us[i] - m.universe_offset == t))
            &&& count_true(r.arrived) == k
        }),
    decreases k,
{
    if k == 0 {
        assert(us.take(0) =~= Seq::<u16>::empty());
        assert(ps.take(0) =~= Seq::<Seq<u8>>::empty());
        lemma_count_true_all_false(m.arrived);
    } else {
        lemma_adds_prefix(m, us, ps, k - 1);
        let prev = apply_adds(m, us.take(k - 1), ps.take(k - 1));
        assert(us.take(k).drop_last() =~= us.take(k - 1));
        assert(ps.take(k).drop_last() =~= ps.take(k - 1));
        let r = apply_adds(m, us.take(k), ps.take(k));
        assert(r == add_spec(prev, us[k - 1], ps[k - 1]));
        let local = us[k - 1] - m.universe_offset;
        if prev.arrived[local as int] {
            let i = choose|i: int|
                0 <= i < k - 1 && us[i] - m.universe_offset == local as int;
            assert(us[i] == us[k - 1]);
            assert(false);
        }
        lemma_count_true_update(prev.arrived, local as int, true);
        assert(count_true(prev.arrived.update(local as int, true)) == k);
        assert(r.arrived == prev.arrived.update(local as int, true));
        assert forall|t: int| 0 <= t < r.arrived.len() implies (r.arrived[t] <==> exists|i: int|
            0 <= i < k && us[i] - m.universe_offset == t) by {
            if t == local as int {
                assert(0 <= k - 1 < k && us[k - 1] - m.universe_offset == t);
            } else {
                if r.arrived[t] {
                    let i = choose|i: int|
                        0 <= i < k - 1 && us[i] - m.universe_offset == t;
                    assert(0 <= i < k && us[i] - m.universe_offset == t);
                }
                if exists|i: int| 0 <= i < k && us[i] - m.universe_offset == t {
                    let i = choose|i: int| 0 <= i < k && us[i] - m.universe_offset == t;
                    assert(i != k - 1);
                    assert(prev.arrived[t]);
                }
            }
        }
    }
}

/// For a device with `universe_count = N`, N `add_universe` calls that
/// cover every universe of its input range produce exactly one flush: no
/// call before the last touches the dispatch queue, the last call appends
/// exactly one packet per universe and advances the sequence counter by N,
/// and afterwards the arrived-set is empty.
pub proof fn lemma_full_coverage_single_flush(m: DeviceModel, us: Seq<u16>, ps: Seq<Seq<u8>>)
    requires
        fresh_frame_inputs(m, us, ps),
    ensures
        forall|k: int|
            0 <= k < us.len() ==> #[trigger] apply_adds(m, us.take(k), ps.take(k)).queue
                == m.queue,
        apply_adds(m, us, ps).queue.len() == m.queue.len() + m.universe_count,
        forall|t: int|
            0 <= t < apply_adds(m, us, ps).arrived.len() ==> !apply_adds(m, us, ps).arrived[t],
        apply_adds(m, us, ps).sequence == seq_after(m.sequence, m.universe_count as nat),
{
    let nn = m.universe_count as int;
    assert forall|k: int| 0 <= k < us.len() implies #[trigger] apply_adds(
        m,
        us.take(k),
        ps.take(k),
    ).queue == m.queue by {
        lemma_adds_prefix(m, us, ps, k);
    }
    lemma_adds_prefix(m, us, ps, nn - 1);
    let prev = apply_adds(m, us.take(nn - 1), ps.take(nn - 1));
    assert(us.take(nn) =~= us);
    assert(ps.take(nn) =~= ps);
    assert(us.drop_last() =~= us.take(nn - 1));
    assert(ps.drop_last() =~= ps.take(nn - 1));
    let r = apply_adds(m, us, ps);
    assert(r == add_spec(prev, us[nn - 1], ps[nn - 1]));
    let local = us[nn - 1] - m.universe_offset;
    if prev.arrived[local as int] {
        let i = choose|i: int| 0 <= i < nn - 1 && us[i] - m.universe_offset == local as int;
        assert(us[i] == us[nn - 1]);
        assert(false);
    }
    lemma_count_true_update(prev.arrived, local as int, true);
    assert(count_true(prev.arrived.update(local as int, true)) == nn);
}

/// Dispatch order equals flush order: a flush appends its packets behind
/// whatever already waits in the queue, the queue hands packets out from
/// the front, and within one flush universes stand in ascending order with
/// consecutive sequence stamps.
pub proof fn lemma_flush_dispatch_order(
    q0: Seq<PacketModel>,
    frame: Seq<u8>,
    seq0: u8,
    count: int,
    offset: u16,
    i: int,
    j: int,
)
    requires
        0 <= i < j < count,
        offset + count <= 0x10000,
    ensures
        (q0 + flush_packets(frame, seq0, count, offset))[q0.len() + i] == flush_packets(
            frame,
            seq0,
            count,
            offset,
        )[i],
        flush_packets(frame, seq0, count, offset)[i].universe < flush_packets(
            frame,
            seq0,
            count,
            offset,
        )[j].universe,
        flush_packets(frame, seq0, count, offset)[i].sequence == seq_after(seq0, (i + 1) as nat),
        1 <= flush_packets(frame, seq0, count, offset)[i].sequence <= 255,
{
    lemma_stamps_stay_in_cycle(seq0, (i + 1) as nat);
}

} // verus!
