use vstd::prelude::*;

verus! {

/// Number of distinct universe ids an inbound packet can carry.
pub const UNIVERSE_SPACE: usize = 65536;

/// One configured device mapping: the contiguous range `[lo, hi]` of input
/// universe ids that is routed to the device.
#[derive(Clone, Copy, PartialEq, Eq, Structural, Debug)]
pub struct DeviceMapping {
    pub lo: u16,
    pub hi: u16,
}

impl DeviceMapping {
    /// A usable range: nonempty, and small enough that its universe count
    /// fits `u16`.
    pub open spec fn valid(self) -> bool {
        self.lo <= self.hi && self.hi - self.lo < u16::MAX
    }

    /// Whether universe `u` lies in the mapping's input range.
    pub open spec fn covers(self, u: u16) -> bool {
        self.lo <= u <= self.hi
    }

    /// How many universes the range holds.
    pub open spec fn universe_count(self) -> int {
        self.hi - self.lo + 1
    }
}

/// The device universe `u` routes to among the first `k` configured
/// mappings: the device configured latest wins where ranges overlap, and a
/// universe in no range routes nowhere.
pub open spec fn route_prefix(ms: Seq<DeviceMapping>, k: int, u: u16) -> Option<usize>
    decreases k,
{
    if k <= 0 {
        None
    } else if ms[k - 1].covers(u) {
        Some((k - 1) as usize)
    } else {
        route_prefix(ms, k - 1, u)
    }
}

/// The device universe `u` routes to under the full configuration.
pub open spec fn route(ms: Seq<DeviceMapping>, u: u16) -> Option<usize> {
    route_prefix(ms, ms.len() as int, u)
}

/// What a routing answer means: a hit names the latest configured device
/// whose range covers the universe; a miss means no configured range covers
/// it.
pub proof fn lemma_route_properties(ms: Seq<DeviceMapping>, k: int, u: u16)
    requires
        0 <= k <= ms.len(),
        k <= usize::MAX,
    ensures
        match route_prefix(ms, k, u) {
            Some(d) => d < k && ms[d as int].covers(u) && (forall|e: int|
                d < e < k ==> !ms[e].covers(u)),
            None => forall|e: int| 0 <= e < k ==> !ms[e].covers(u),
        },
    decreases k,
{
    if k > 0 && !ms[k - 1].covers(u) {
        lemma_route_properties(ms, k - 1, u);
    }
}

/// The static routing table: for every universe id, the index of the device
/// it is destined for, if any. Built once from the configuration, read-only
/// afterwards, with O(1) lookup.
pub struct UniverseMapper {
    /// The configured mappings, in configuration order.
    pub mappings: Vec<DeviceMapping>,
    /// For each universe id, the device it routes to under `route`.
    pub table: Vec<Option<usize>>,
}

impl UniverseMapper {
    /// The table answers every universe id exactly as `route` does on the
    /// configured mappings.
    pub open spec fn wf(&self) -> bool {
        &&& self.table@.len() == UNIVERSE_SPACE as int
        &&& forall|u: int|
            0 <= u < UNIVERSE_SPACE as int ==> self.table@[u] == route(
                self.mappings@,
                u as u16,
            )
    }

    /// Build the table: walk the mappings in configuration order and record
    /// every universe of each range; a later mapping overwrites an earlier
    /// one where ranges overlap.
    #[verifier::loop_isolation(false)]
    pub fn new(mappings: Vec<DeviceMapping>) -> (m: UniverseMapper)
        ensures
            m.wf(),
            m.mappings@ == mappings@,
    {
        let mut table: Vec<Option<usize>> = Vec::new();
        while table.len() < UNIVERSE_SPACE
            invariant
                table@ =~= Seq::new(table@.len(), |i: int| Option::<usize>::None),
                table@.len() <= UNIVERSE_SPACE as int,
            decreases UNIVERSE_SPACE - table@.len(),
        {
            table.push(None);
        }
        let mut d: usize = 0;
        while d < mappings.len()
            invariant
                d <= mappings@.len(),
                table@.len() == UNIVERSE_SPACE as int,
                forall|t: int|
                    0 <= t < UNIVERSE_SPACE as int ==> table@[t] == route_prefix(
                        mappings@,
                        d as int,
                        t as u16,
                    ),
            decreases mappings@.len() - d,
        {
            let m = mappings[d];
            if m.lo <= m.hi {
                let mut u: usize = m.lo as usize;
                while u <= m.hi as usize
                invariant
                    m == mappings@[d as int],
                    d < mappings@.len(),
                    m.lo as int <= u as int <= m.hi as int + 1,
                    table@.len() == UNIVERSE_SPACE as int,
                    forall|t: int|
                        0 <= t < UNIVERSE_SPACE as int ==> table@[t] == (
                        if m.lo as int <= t < u as int {
                            Some(d)
                        } else {
                            route_prefix(mappings@, d as int, t as u16)
                        }),
                decreases m.hi as int + 1 - u as int,
                {
                    table.set(u, Some(d));
                    u = u + 1;
                }
            }
            d = d + 1;
            proof {
                assert forall|t: int|
                    0 <= t < UNIVERSE_SPACE as int implies table@[t] == route_prefix(
                    mappings@,
                    d as int,
                    t as u16,
                ) by {
                    assert(mappings@[d - 1].covers(t as u16) <==> (
                    mappings@[d - 1].lo as int <= t <= mappings@[d - 1].hi as int));
                }
            }
        }
        UniverseMapper { mappings, table }
    }

    /// Where universe `universe` is destined: the index of the device whose
    /// configured range covers it (the latest such device wins), or `None`
    /// when no range does.
    pub fn lookup(&self, universe: u16) -> (r: Option<usize>)
        requires
            self.wf(),
        ensures
            r == route(self.mappings@, universe),
    {
        self.table[universe as usize]
    }
}

} // verus!
