use vstd::prelude::*;
use crate::codec::{encode_packet, EncodeError, ARTNET_MAX_DATA, ARTNET_MAX_PORT};
use crate::codec::art_dmx_frame;
use crate::device::{add_completes, add_spec, initial_device, DeviceModel, OutputDevice};
use crate::mapper::{lemma_route_properties, route, DeviceMapping, UniverseMapper};

verus! {

/// Mathematical image of the router: the configured mappings and the state
/// of every device, in configuration order.
#[verifier::ext_equal]
pub struct RouterModel {
    pub mappings: Seq<DeviceMapping>,
    pub devices: Seq<DeviceModel>,
}

/// What one ingested packet led to.
#[derive(Clone, Copy, PartialEq, Eq, Structural, Debug)]
pub enum IngestResult {
    /// No configured range covers the universe: the packet was dropped and
    /// no state changed.
    Unmapped,
    /// The payload was stored; the destination device's frame is still
    /// incomplete.
    Stored,
    /// The payload completed the destination device's frame, which was
    /// flushed onto its dispatch queue.
    Flushed,
}

/// `m` with device `d` replaced by `dev`.
pub open spec fn with_device(m: RouterModel, d: int, dev: DeviceModel) -> RouterModel {
    RouterModel { mappings: m.mappings, devices: m.devices.update(d, dev) }
}

/// `m` with the packet that has waited longest removed from device `d`'s
/// dispatch queue.
pub open spec fn popped_device(m: DeviceModel) -> DeviceModel {
    DeviceModel {
        frame: m.frame,
        arrived: m.arrived,
        sequence: m.sequence,
        universe_count: m.universe_count,
        universe_offset: m.universe_offset,
        queue: m.queue.drop_first(),
    }
}

/// The router: it owns every output device and the universe mapper, and is
/// the single entry point that demultiplexes inbound universes to the right
/// device's aggregator.
pub struct Router {
    pub devices: Vec<OutputDevice>,
    pub mapper: UniverseMapper,
}

impl View for Router {
    type V = RouterModel;

    open spec fn view(&self) -> RouterModel {
        RouterModel {
            mappings: self.mapper.mappings@,
            devices: self.devices@.map_values(|d: OutputDevice| d@),
        }
    }
}

impl Router {
    /// Internal consistency: the mapper's table answers for the configured
    /// mappings, and device `d` is the well-formed aggregator of mapping
    /// `d`'s universe range.
    pub open spec fn wf(&self) -> bool {
        &&& self.mapper.wf()
        &&& self.devices@.len() == self.mapper.mappings@.len()
        &&& forall|d: int|
            0 <= d < self.devices@.len() ==> (#[trigger] self.devices@[d]).wf()
                && self.devices@[d].universe_offset == self.mapper.mappings@[d].lo
                && self.devices@[d].universe_count as int
                == self.mapper.mappings@[d].universe_count()
                && self.mapper.mappings@[d].valid()
    }

    /// Build one device per configured mapping, in configuration order, and
    /// the routing table over all of them.
    #[verifier::loop_isolation(false)]
    pub fn new(mappings: Vec<DeviceMapping>) -> (r: Router)
        requires
            forall|d: int| 0 <= d < mappings@.len() ==> (#[trigger] mappings@[d]).valid(),
        ensures
            r.wf(),
            r@.mappings == mappings@,
            r@.devices.len() == mappings@.len(),
            forall|d: int|
                0 <= d < mappings@.len() ==> r@.devices[d] == initial_device(
                    mappings@[d].lo,
                    mappings@[d].hi,
                ),
    {
        let mut devices: Vec<OutputDevice> = Vec::new();
        let mut d: usize = 0;
        while d < mappings.len()
            invariant
                d == devices@.len(),
                d <= mappings@.len(),
                forall|e: int|
                    0 <= e < d as int ==> (#[trigger] devices@[e]).wf() && devices@[e]@
                        == initial_device(mappings@[e].lo, mappings@[e].hi),
            decreases mappings@.len() - d,
        {
            let m = mappings[d];
            devices.push(OutputDevice::new(m.lo, m.hi));
            d = d + 1;
        }
        let mapper = UniverseMapper::new(mappings);
        let r = Router { devices, mapper };
        proof {
            assert(r@.devices =~= r.devices@.map_values(|dv: OutputDevice| dv@));
        }
        r
    }

    /// Demultiplex one inbound universe payload: look the universe up and
    /// hand the payload to the destination device's aggregator; a universe
    /// outside every configured range is dropped and leaves every device
    /// exactly as it was.
    pub fn ingest(&mut self, universe: u16, payload: &Vec<u8>) -> (r: IngestResult)
        requires
            old(self).wf(),
        ensures
            final(self).wf(),
            final(self)@.mappings == old(self)@.mappings,
            match route(old(self)@.mappings, universe) {
                None => r == IngestResult::Unmapped && *final(self) == *old(self),
                Some(d) => {
                    &&& final(self)@ == with_device(
                        old(self)@,
                        d as int,
                        add_spec(old(self)@.devices[d as int], universe, payload@),
                    )
                    &&& r == (if add_completes(old(self)@.devices[d as int], universe) {
                        IngestResult::Flushed
                    } else {
                        IngestResult::Stored
                    })
                },
            },
    {
        let looked_up = self.mapper.lookup(universe);
        match looked_up {
            None => IngestResult::Unmapped,
            Some(d) => {
                let n: usize = self.mapper.mappings.len();
                proof {
                    assert(self.mapper.mappings@.len() == n as int);
                    lemma_route_properties(
                        self.mapper.mappings@,
                        self.mapper.mappings@.len() as int,
                        universe,
                    );
                }
                let mut dev = self.devices.remove(d);
                let flushed = dev.add_universe(universe, payload);
                self.devices.insert(d, dev);
                proof {
                    assert(self.devices@ =~= old(self).devices@.update(
                        d as int,
                        self.devices@[d as int],
                    ));
                    assert(self@ =~~= with_device(
                        old(self)@,
                        d as int,
                        add_spec(old(self)@.devices[d as int], universe, payload@),
                    ));
                }
                if flushed {
                    IngestResult::Flushed
                } else {
                    IngestResult::Stored
                }
            },
        }
    }

    /// One pacer step for device `d`: take the packet that has waited
    /// longest off the device's dispatch queue and turn it into its wire
    /// frame. `None` when the queue is empty; the pacing sleep between
    /// steps, and the send itself, belong to the caller.
    pub fn pacer_next(&mut self, d: usize) -> (r: Option<Result<Vec<u8>, EncodeError>>)
        requires
            old(self).wf(),
            d < old(self)@.devices.len(),
        ensures
            final(self).wf(),
            final(self)@.mappings == old(self)@.mappings,
            old(self)@.devices[d as int].queue.len() == 0 ==> r is None && final(self)@
                == old(self)@,
            old(self)@.devices[d as int].queue.len() > 0 ==> {
                let p = old(self)@.devices[d as int].queue[0];
                &&& final(self)@ == with_device(
                    old(self)@,
                    d as int,
                    popped_device(old(self)@.devices[d as int]),
                )
                &&& (p.universe <= ARTNET_MAX_PORT && 1 <= p.payload.len()
                    <= ARTNET_MAX_DATA as int ==> (r matches Some(res) && res matches Ok(b)
                    && b@ == art_dmx_frame(p.universe, p.sequence, p.payload)))
                &&& (p.universe > ARTNET_MAX_PORT ==> r == Some(
                    Err::<Vec<u8>, EncodeError>(EncodeError::UniverseOutOfRange),
                ))
                &&& (p.universe <= ARTNET_MAX_PORT && !(1 <= p.payload.len()
                    <= ARTNET_MAX_DATA as int) ==> r == Some(
                    Err::<Vec<u8>, EncodeError>(EncodeError::PayloadSizeInvalid),
                ))
            },
    {
        let mut dev = self.devices.remove(d);
        let popped = dev.queue.dequeue();
        let r = match popped {
            None => None,
            Some(p) => Some(encode_packet(&p)),
        };
        self.devices.insert(d, dev);
        proof {
            if old(self)@.devices[d as int].queue.len() == 0 {
                assert(self.devices@ =~= old(self).devices@);
                assert(self@ =~~= old(self)@);
            } else {
                assert(self.devices@ =~= old(self).devices@.update(
                    d as int,
                    self.devices@[d as int],
                ));
                assert(self@ =~~= with_device(
                    old(self)@,
                    d as int,
                    popped_device(old(self)@.devices[d as int]),
                ));
            }
            assert(self.devices@.len() == old(self).devices@.len());
            assert forall|e: int| 0 <= e < self.devices@.len() implies (
            #[trigger] self.devices@[e]).wf() && self.devices@[e].universe_offset
                == self.mapper.mappings@[e].lo && self.devices@[e].universe_count as int
                == self.mapper.mappings@[e].universe_count()
                && self.mapper.mappings@[e].valid() by {
                assert(old(self).devices@[e].wf());
                if e != d as int {
                    assert(self.devices@[e] == old(self).devices@[e]);
                }
            }
        }
        r
    }

    /// How many devices the router drives.
    pub fn device_count(&self) -> (n: usize)
        ensures
            n == self@.devices.len(),
    {
        let n: usize = self.devices.len();
        proof {
            assert(self@.devices.len() == self.devices@.len());
        }
        n
    }
}

} // verus!
