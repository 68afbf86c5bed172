use vstd::prelude::*;
use crate::packet::{OutputPacket, PacketModel};

verus! {

/// The per-device dispatch queue: a first-in first-out buffer of fully
/// formed outbound packets, filled by a frame flush and drained by the
/// device's pacer. Delivery order is exactly enqueue order.
pub struct DispatchQueue {
    items: Vec<OutputPacket>,
}

impl View for DispatchQueue {
    type V = Seq<PacketModel>;

    closed spec fn view(&self) -> Seq<PacketModel> {
        self.items@.map_values(|p: OutputPacket| p@)
    }
}

impl DispatchQueue {
    /// A fresh, empty queue.
    pub fn new() -> (q: DispatchQueue)
        ensures
            q@ == Seq::<PacketModel>::empty(),
    {
        let q = DispatchQueue { items: Vec::new() };
        proof {
            assert(q@ =~= Seq::<PacketModel>::empty());
        }
        q
    }

    /// How many packets wait for dispatch.
    pub fn len(&self) -> (n: usize)
        ensures
            n == self@.len(),
    {
        self.items.len()
    }

    /// Append one packet at the tail of the queue.
    pub fn enqueue(&mut self, p: OutputPacket)
        ensures
            final(self)@ == old(self)@.push(p@),
    {
        let ghost pv = p@;
        self.items.push(p);
        proof {
            assert(self@ =~= old(self)@.push(pv));
        }
    }

    /// Remove and return the packet that has waited longest; `None` when the
    /// queue is empty.
    pub fn dequeue(&mut self) -> (r: Option<OutputPacket>)
        ensures
            old(self)@.len() == 0 ==> r is None && *final(self) == *old(self),
            old(self)@.len() > 0 ==> (
                r matches Some(p) && p@ == old(self)@[0] && final(self)@ == old(self)@.drop_first()
            ),
    {
        if self.items.len() == 0 {
            None
        } else {
            let p = self.items.remove(0);
            proof {
                assert(self@ =~= old(self)@.drop_first());
            }
            Some(p)
        }
    }
}

} // verus!
