use vstd::prelude::*;

verus! {

/// Most bytes a single universe carries in a frame: a DMX universe holds 512
/// slots, of which this hub forwards the first 510 (one RGB pixel boundary).
pub const UNIVERSE_PAYLOAD: usize = 510;

/// Mathematical image of an outbound packet: the absolute universe id the
/// packet is addressed to, the per-device sequence stamp, and the payload
/// bytes.
#[verifier::ext_equal]
pub struct PacketModel {
    pub universe: u16,
    pub sequence: u8,
    pub payload: Seq<u8>,
}

/// One packet produced by a frame flush and consumed by a pacer: a universe
/// id, the sequence number stamped at flush time, and at most
/// `UNIVERSE_PAYLOAD` bytes of channel data.
pub struct OutputPacket {
    pub universe: u16,
    pub sequence: u8,
    pub payload: Vec<u8>,
}

impl View for OutputPacket {
    type V = PacketModel;

    open spec fn view(&self) -> PacketModel {
        PacketModel { universe: self.universe, sequence: self.sequence, payload: self.payload@ }
    }
}

} // verus!
