//! Building the parking store's spot tables and indexes from a road network.
use vstd::prelude::*;
use crate::network::RoadNetwork;
use crate::parking::{ParkingSimState, SpotState};
use crate::parking_lane::ParkingLane;
use crate::queries::lemma_push_fresh;
use crate::types::{BuildingID, LaneID, ParkingLotID, ParkingSpot};

verus! {

/// Spots of building `b` that the store tracks: none when the building has no
/// garage or its garage is entered from a blackhole lane.
pub open spec fn offstreet_capacity(map: RoadNetwork, b: BuildingID) -> nat {
    match map.buildings@[b as int].parking {
        Some(p) => if map.lanes@[p.driving_pos.lane as int].parking_blackhole {
            0
        } else {
            p.num_spots as nat
        },
        None => 0,
    }
}

/// Spots of lot `pl` that the store tracks: none when the lot is entered
/// from a blackhole lane.
pub open spec fn lot_capacity(map: RoadNetwork, pl: ParkingLotID) -> nat {
    let lot = map.lots@[pl as int];
    if map.lanes@[lot.driving_pos.lane as int].parking_blackhole {
        0
    } else {
        lot.num_spots as nat
    }
}

/// Whether the store keeps curb parking for lane `l`: its slot geometry is
/// built and it has at least one slot.
pub open spec fn has_curb_parking(map: RoadNetwork, l: LaneID) -> bool {
    ParkingLane::kept(map, l) && map.lanes@[l as int].num_parking_spots > 0
}

/// Curb slots of lane `l` that the store tracks.
pub open spec fn onstreet_capacity(map: RoadNetwork, l: LaneID) -> nat {
    if has_curb_parking(map, l) {
        map.lanes@[l as int].num_parking_spots as nat
    } else {
        0
    }
}

/// Whether `spot` is one of the spots a store built from `map` tracks.
pub open spec fn network_spot(map: RoadNetwork, spot: ParkingSpot) -> bool {
    match spot {
        ParkingSpot::Onstreet(l, i) => l < map.lanes@.len() && i < onstreet_capacity(map, l),
        ParkingSpot::Offstreet(b, i) => b < map.buildings@.len() && i < offstreet_capacity(map, b),
        ParkingSpot::Lot(pl, i) => pl < map.lots@.len() && i < lot_capacity(map, pl),
    }
}

/// Whether parking lane `l` feeds driving lane `d`.
pub open spec fn feeds_onstreet(map: RoadNetwork, d: LaneID, l: LaneID) -> bool {
    &&& l < map.lanes@.len()
    &&& onstreet_capacity(map, l) > 0
    &&& map.lanes@[l as int].parking_to_driving == Some(d)
}

/// Whether building `b`'s garage is entered from driving lane `d`.
pub open spec fn feeds_offstreet(map: RoadNetwork, d: LaneID, b: BuildingID) -> bool {
    &&& b < map.buildings@.len()
    &&& offstreet_capacity(map, b) > 0
    &&& map.buildings@[b as int].parking->Some_0.driving_pos.lane == d
}

/// Whether lot `pl` is entered from driving lane `d`.
pub open spec fn feeds_lot(map: RoadNetwork, d: LaneID, pl: ParkingLotID) -> bool {
    &&& pl < map.lots@.len()
    &&& lot_capacity(map, pl) > 0
    &&& map.lots@[pl as int].driving_pos.lane == d
}

/// Whether lane `l` is a parking lane left without curb parking only because
/// no sidewalk is near it.
pub open spec fn lacks_sidewalk(map: RoadNetwork, l: LaneID) -> bool {
    let lane = map.lanes@[l as int];
    &&& lane.lane_type == crate::network::LaneType::Parking
    &&& lane.parking_to_driving is Some
    &&& !map.lanes@[lane.parking_to_driving->Some_0 as int].parking_blackhole
    &&& lane.closest_sidewalk is None
}

/// The parking lanes, in increasing order, that a store built from `map`
/// leaves out because they have no sidewalk, so that callers can report
/// them.
pub fn parking_lanes_without_sidewalk(map: &RoadNetwork) -> (r: Vec<LaneID>)
    requires
        map.wf(),
    ensures
        forall|l: LaneID| #[trigger] r@.contains(l) == (l < map.lanes@.len() && lacks_sidewalk(*map, l)),
        forall|i: int, j: int| 0 <= i < j < r@.len() ==> r@[i] < r@[j],
{
    let mut out: Vec<LaneID> = Vec::new();
    let mut l: usize = 0;
    while l < map.lanes.len()
        invariant
            map.wf(),
            l <= map.lanes@.len(),
            forall|x: LaneID| #[trigger] out@.contains(x) == (x < l && lacks_sidewalk(*map, x)),
            forall|i: int, j: int| 0 <= i < j < out@.len() ==> out@[i] < out@[j],
            forall|i: int| 0 <= i < out@.len() ==> out@[i] < l,
        decreases map.lanes@.len() - l,
    {
        proof {
            assert(map.lane_wf(l as int));
        }
        let lane = &map.lanes[l];
        let dropped = match lane.parking_to_driving {
            Some(d) => lane.lane_type == crate::network::LaneType::Parking && !map.lanes[d].parking_blackhole
                && lane.closest_sidewalk.is_none(),
            None => false,
        };
        if dropped {
            let ghost before = out@;
            out.push(l);
            proof {
                assert(lacks_sidewalk(*map, l));
                assert forall|x: LaneID| #[trigger] out@.contains(x) == (x < l + 1 && lacks_sidewalk(*map, x)) by {
                    if x == l {
                        assert(out@[before.len() as int] == x);
                    } else if out@.contains(x) {
                        let j = choose|j: int| 0 <= j < out@.len() && out@[j] == x;
                        assert(before[j] == x);
                        assert(before.contains(x));
                    } else if before.contains(x) {
                        let j = choose|j: int| 0 <= j < before.len() && before[j] == x;
                        assert(out@[j] == x);
                    }
                }
            }
        } else {
            proof {
                assert(!lacks_sidewalk(*map, l));
                assert forall|x: LaneID| #[trigger] out@.contains(x) == (x < l + 1 && lacks_sidewalk(*map, x)) by {
                    if x == l && out@.contains(x) {
                        let j = choose|j: int| 0 <= j < out@.len() && out@[j] == x;
                        assert(out@[j] < l);
                    }
                }
            }
        }
        l = l + 1;
    }
    out
}

/// A row of `n` free slots.
fn free_row(n: usize) -> (r: Vec<SpotState>)
    ensures
        r@.len() == n,
        forall|i: int| 0 <= i < n ==> #[trigger] r@[i] == SpotState::Free,
{
    let mut row: Vec<SpotState> = Vec::new();
    let mut i: usize = 0;
    while i < n
        invariant
            i <= n,
            row@.len() == i,
            forall|j: int| 0 <= j < i ==> #[trigger] row@[j] == SpotState::Free,
        decreases n - i,
    {
        row.push(SpotState::Free);
        i = i + 1;
    }
    row
}

/// `n` empty index lists.
fn empty_lists(n: usize) -> (r: Vec<Vec<usize>>)
    ensures
        r@.len() == n,
        forall|i: int| 0 <= i < n ==> (#[trigger] r@[i])@.len() == 0,
{
    let mut lists: Vec<Vec<usize>> = Vec::new();
    let mut i: usize = 0;
    while i < n
        invariant
            i <= n,
            lists@.len() == i,
            forall|j: int| 0 <= j < i ==> (#[trigger] lists@[j])@.len() == 0,
        decreases n - i,
    {
        lists.push(Vec::new());
        i = i + 1;
    }
    lists
}

fn offstreet_capacity_of(map: &RoadNetwork, b: BuildingID) -> (r: usize)
    requires
        map.wf(),
        b < map.buildings@.len(),
    ensures
        r == offstreet_capacity(*map, b),
{
    proof {
        assert(map.building_wf(b as int));
    }
    match map.buildings[b].parking {
        Some(p) => if map.lanes[p.driving_pos.lane].parking_blackhole {
            0
        } else {
            p.num_spots
        },
        None => 0,
    }
}

fn lot_capacity_of(map: &RoadNetwork, pl: ParkingLotID) -> (r: usize)
    requires
        map.wf(),
        pl < map.lots@.len(),
    ensures
        r == lot_capacity(*map, pl),
{
    proof {
        assert(map.lot_wf(pl as int));
    }
    let lot = &map.lots[pl];
    if map.lanes[lot.driving_pos.lane].parking_blackhole {
        0
    } else {
        lot.num_spots
    }
}

impl ParkingSimState {
    /// The spot tables and indexes are those of `map`.
    pub open(crate) spec fn built_from(&self, map: RoadNetwork) -> bool {
        let n = map.lanes@.len();
        &&& self.onstreet_lanes@.len() == n
        &&& self.onstreet_slots@.len() == n
        &&& self.driving_to_parking_lanes@.len() == n
        &&& self.driving_to_offstreet@.len() == n
        &&& self.driving_to_lots@.len() == n
        &&& self.offstreet_slots@.len() == map.buildings@.len()
        &&& self.lot_slots@.len() == map.lots@.len()
        &&& forall|l: int|
            0 <= l < n ==> {
                &&& (#[trigger] self.onstreet_lanes@[l]) is Some == has_curb_parking(map, l as LaneID)
                &&& self.onstreet_slots@[l]@.len() == onstreet_capacity(map, l as LaneID)
                &&& self.onstreet_lanes@[l] matches Some(pl) ==> {
                    &&& map.lanes@[l].parking_to_driving is Some
                    &&& pl.wf()
                    &&& pl.parking_lane == l
                    &&& pl.driving_lane == map.lanes@[l].parking_to_driving->Some_0
                    &&& pl.sidewalk == map.lanes@[l].closest_sidewalk->Some_0
                    &&& pl.num_spots() == map.lanes@[l].num_parking_spots
                }
            }
        &&& forall|b: int|
            0 <= b < map.buildings@.len() ==> (#[trigger] self.offstreet_slots@[b])@.len()
                == offstreet_capacity(map, b as BuildingID)
        &&& forall|pl: int|
            0 <= pl < map.lots@.len() ==> (#[trigger] self.lot_slots@[pl])@.len() == lot_capacity(
                map,
                pl as ParkingLotID,
            )
        &&& forall|d: int|
            0 <= d < n ==> {
                &&& (#[trigger] self.driving_to_parking_lanes@[d])@.no_duplicates()
                &&& self.driving_to_offstreet@[d]@.no_duplicates()
                &&& self.driving_to_lots@[d]@.no_duplicates()
                &&& forall|x: usize|
                    self.driving_to_parking_lanes@[d]@.contains(x) == feeds_onstreet(map, d as LaneID, x)
                &&& forall|x: usize|
                    self.driving_to_offstreet@[d]@.contains(x) == feeds_offstreet(map, d as LaneID, x)
                &&& forall|x: usize| self.driving_to_lots@[d]@.contains(x) == feeds_lot(map, d as LaneID, x)
            }
    }

    /// A store with every spot of `map` free. Spots entered from a blackhole
    /// lane, parking lanes without a sidewalk, and entities without spots
    /// are left out.
    pub fn new(map: &RoadNetwork) -> (r: ParkingSimState)
        requires
            map.wf(),
            forall|l: int|
                0 <= l < map.lanes@.len() && (#[trigger] map.lanes@[l]).lane_type
                    == crate::network::LaneType::Parking ==> map.lanes@[l].parking_to_driving is Some,
        ensures
            r.wf(),
            r.built_from(*map),
            forall|s: ParkingSpot| #[trigger] r.spot_exists(s) == network_spot(*map, s),
            r.occupants() == Map::<ParkingSpot, usize>::empty(),
            r.reserved_spots() == Set::<ParkingSpot>::empty(),
            r.parked() == Map::<usize, crate::types::ParkedCar>::empty(),
            r.parked_seq() == Seq::<crate::types::ParkedCar>::empty(),
            r.pending_events() == Seq::<crate::types::Event>::empty(),
    {
        let n = map.lanes.len();
        let mut onstreet_lanes: Vec<Option<ParkingLane>> = Vec::new();
        let mut onstreet_slots: Vec<Vec<SpotState>> = Vec::new();
        let mut driving_to_parking_lanes = empty_lists(n);
        let mut l: usize = 0;
        while l < n
            invariant
                map.wf(),
                n == map.lanes@.len(),
                forall|x: int|
                    0 <= x < map.lanes@.len() && (#[trigger] map.lanes@[x]).lane_type
                        == crate::network::LaneType::Parking ==> map.lanes@[x].parking_to_driving is Some,
                l <= n,
                onstreet_lanes@.len() == l,
                onstreet_slots@.len() == l,
                driving_to_parking_lanes@.len() == n,
                forall|x: int|
                    0 <= x < l ==> {
                        &&& (#[trigger] onstreet_lanes@[x]) is Some == has_curb_parking(*map, x as LaneID)
                        &&& onstreet_slots@[x]@.len() == onstreet_capacity(*map, x as LaneID)
                        &&& forall|i: int| 0 <= i < onstreet_slots@[x]@.len() ==> #[trigger] onstreet_slots@[x]@[i] == SpotState::Free
                        &&& onstreet_lanes@[x] matches Some(pl) ==> {
                            &&& map.lanes@[x].parking_to_driving is Some
                            &&& pl.wf()
                            &&& pl.parking_lane == x
                            &&& pl.driving_lane == map.lanes@[x].parking_to_driving->Some_0
                            &&& pl.sidewalk == map.lanes@[x].closest_sidewalk->Some_0
                            &&& pl.num_spots() == map.lanes@[x].num_parking_spots
                        }
                    },
                forall|d: int|
                    0 <= d < n ==> {
                        &&& (#[trigger] driving_to_parking_lanes@[d])@.no_duplicates()
                        &&& forall|x: usize|
                            driving_to_parking_lanes@[d]@.contains(x) == (x < l && feeds_onstreet(*map, d as LaneID, x))
                    },
            decreases n - l,
        {
            let ghost before = driving_to_parking_lanes@;
            match ParkingLane::new(l, map) {
                Some(pl) if pl.spot_dist_along.len() > 0 => {
                    let d = pl.driving_lane;
                    let k = pl.spot_dist_along.len();
                    proof {
                        assert(map.lane_wf(l as int));
                    }
                    driving_to_parking_lanes[d].push(l);
                    onstreet_slots.push(free_row(k));
                    onstreet_lanes.push(Some(pl));
                    proof {
                        assert forall|e: int| 0 <= e < n implies {
                            &&& (#[trigger] driving_to_parking_lanes@[e])@.no_duplicates()
                            &&& forall|x: usize|
                                driving_to_parking_lanes@[e]@.contains(x) == (x < l + 1 && feeds_onstreet(*map, e as LaneID, x))
                        } by {
                            if e == d {
                                assert(feeds_onstreet(*map, e as LaneID, l));
                                lemma_push_fresh(before[e]@, driving_to_parking_lanes@[e]@, l);
                            } else {
                                assert(driving_to_parking_lanes@[e] == before[e]);
                            }
                        }
                    }
                },
                _ => {
                    onstreet_slots.push(Vec::new());
                    onstreet_lanes.push(None);
                    proof {
                        assert forall|e: int| 0 <= e < n implies forall|x: usize|
                            (#[trigger] driving_to_parking_lanes@[e])@.contains(x) == (x < l + 1 && feeds_onstreet(*map, e as LaneID, x)) by {
                            assert(!feeds_onstreet(*map, e as LaneID, l));
                        }
                    }
                },
            }
            l = l + 1;
        }
        let nb = map.buildings.len();
        let mut offstreet_slots: Vec<Vec<SpotState>> = Vec::new();
        let mut driving_to_offstreet = empty_lists(n);
        let mut b: usize = 0;
        while b < nb
            invariant
                map.wf(),
                n == map.lanes@.len(),
                nb == map.buildings@.len(),
                b <= nb,
                offstreet_slots@.len() == b,
                driving_to_offstreet@.len() == n,
                forall|x: int|
                    0 <= x < b ==> (#[trigger] offstreet_slots@[x])@.len() == offstreet_capacity(*map, x as BuildingID)
                        && forall|i: int| 0 <= i < offstreet_slots@[x]@.len() ==> #[trigger] offstreet_slots@[x]@[i] == SpotState::Free,
                forall|d: int|
                    0 <= d < n ==> {
                        &&& (#[trigger] driving_to_offstreet@[d])@.no_duplicates()
                        &&& forall|x: usize|
                            driving_to_offstreet@[d]@.contains(x) == (x < b && feeds_offstreet(*map, d as LaneID, x))
                    },
            decreases nb - b,
        {
            let ghost before = driving_to_offstreet@;
            let cap = offstreet_capacity_of(map, b);
            let mut d: usize = 0;
            if cap > 0 {
                proof {
                    assert(map.building_wf(b as int));
                }
                d = map.buildings[b].parking.unwrap().driving_pos.lane;
                driving_to_offstreet[d].push(b);
            }
            offstreet_slots.push(free_row(cap));
            proof {
                assert forall|e: int| 0 <= e < n implies {
                    &&& (#[trigger] driving_to_offstreet@[e])@.no_duplicates()
                    &&& forall|x: usize|
                        driving_to_offstreet@[e]@.contains(x) == (x < b + 1 && feeds_offstreet(*map, e as LaneID, x))
                } by {
                    if e == d && cap > 0 {
                        lemma_push_fresh(before[e]@, driving_to_offstreet@[e]@, b);
                    } else {
                        assert(driving_to_offstreet@[e] == before[e]);
                        assert(!feeds_offstreet(*map, e as LaneID, b));
                    }
                }
            }
            b = b + 1;
        }
        let nl = map.lots.len();
        let mut lot_slots: Vec<Vec<SpotState>> = Vec::new();
        let mut driving_to_lots = empty_lists(n);
        let mut pl: usize = 0;
        while pl < nl
            invariant
                map.wf(),
                n == map.lanes@.len(),
                nl == map.lots@.len(),
                pl <= nl,
                lot_slots@.len() == pl,
                driving_to_lots@.len() == n,
                forall|x: int|
                    0 <= x < pl ==> (#[trigger] lot_slots@[x])@.len() == lot_capacity(*map, x as ParkingLotID)
                        && forall|i: int| 0 <= i < lot_slots@[x]@.len() ==> #[trigger] lot_slots@[x]@[i] == SpotState::Free,
                forall|d: int|
                    0 <= d < n ==> {
                        &&& (#[trigger] driving_to_lots@[d])@.no_duplicates()
                        &&& forall|x: usize|
                            driving_to_lots@[d]@.contains(x) == (x < pl && feeds_lot(*map, d as LaneID, x))
                    },
            decreases nl - pl,
        {
            let ghost before = driving_to_lots@;
            let cap = lot_capacity_of(map, pl);
            proof {
                assert(map.lot_wf(pl as int));
            }
            let d = map.lots[pl].driving_pos.lane;
            if cap > 0 {
                driving_to_lots[d].push(pl);
            }
            lot_slots.push(free_row(cap));
            proof {
                assert forall|e: int| 0 <= e < n implies {
                    &&& (#[trigger] driving_to_lots@[e])@.no_duplicates()
                    &&& forall|x: usize|
                        driving_to_lots@[e]@.contains(x) == (x < pl + 1 && feeds_lot(*map, e as LaneID, x))
                } by {
                    if e == d && cap > 0 {
                        lemma_push_fresh(before[e]@, driving_to_lots@[e]@, pl);
                    } else {
                        assert(driving_to_lots@[e] == before[e]);
                        assert(!feeds_lot(*map, e as LaneID, pl));
                    }
                }
            }
            pl = pl + 1;
        }
        let r = ParkingSimState {
            parked_cars: Vec::new(),
            parked_map: Ghost(Map::empty()),
            onstreet_lanes,
            onstreet_slots,
            driving_to_parking_lanes,
            offstreet_slots,
            driving_to_offstreet,
            lot_slots,
            driving_to_lots,
            events: Vec::new(),
        };
        assert forall|s: ParkingSpot| #[trigger] r.status(s) is Some ==> r.status(s) == Some(SpotState::Free) by {
            match s {
                ParkingSpot::Onstreet(x, i) => {
                    if x < n {
                        assert(r.onstreet_lanes@[x as int] is Some == has_curb_parking(*map, x));
                        if i < r.onstreet_slots@[x as int]@.len() {
                            assert(r.onstreet_slots@[x as int]@[i as int] == SpotState::Free);
                        }
                    }
                },
                ParkingSpot::Offstreet(x, i) => {
                    if x < nb {
                        assert(r.offstreet_slots@[x as int]@.len() == offstreet_capacity(*map, x));
                        if i < r.offstreet_slots@[x as int]@.len() {
                            assert(r.offstreet_slots@[x as int]@[i as int] == SpotState::Free);
                        }
                    }
                },
                ParkingSpot::Lot(x, i) => {
                    if x < nl {
                        assert(r.lot_slots@[x as int]@.len() == lot_capacity(*map, x));
                        if i < r.lot_slots@[x as int]@.len() {
                            assert(r.lot_slots@[x as int]@[i as int] == SpotState::Free);
                        }
                    }
                },
            }
        }
        assert forall|s: ParkingSpot| #[trigger] r.spot_exists(s) == network_spot(*map, s) by {
            match s {
                ParkingSpot::Onstreet(x, i) => {
                    if x < n {
                        assert(r.onstreet_lanes@[x as int] is Some == has_curb_parking(*map, x));
                        if i < r.onstreet_slots@[x as int]@.len() {
                            assert(r.onstreet_slots@[x as int]@[i as int] == SpotState::Free);
                        }
                    }
                },
                ParkingSpot::Offstreet(x, i) => {
                    if x < nb {
                        assert(r.offstreet_slots@[x as int]@.len() == offstreet_capacity(*map, x));
                        if i < r.offstreet_slots@[x as int]@.len() {
                            assert(r.offstreet_slots@[x as int]@[i as int] == SpotState::Free);
                        }
                    }
                },
                ParkingSpot::Lot(x, i) => {
                    if x < nl {
                        assert(r.lot_slots@[x as int]@.len() == lot_capacity(*map, x));
                        if i < r.lot_slots@[x as int]@.len() {
                            assert(r.lot_slots@[x as int]@[i as int] == SpotState::Free);
                        }
                    }
                },
            }
        }
        assert(r.occupants() =~= Map::<ParkingSpot, usize>::empty());
        assert(r.reserved_spots() =~= Set::<ParkingSpot>::empty());
        assert(r.parked_wf());
        r
    }

    /// The store's spots are exactly the network's spots.
    pub(crate) proof fn lemma_spot_in_network(&self, map: RoadNetwork, spot: ParkingSpot)
        requires
            self.built_from(map),
        ensures
            self.spot_exists(spot) == network_spot(map, spot),
            self.spot_exists(spot) ==> match spot {
                ParkingSpot::Onstreet(l, i) => self.onstreet_lanes@[l as int] matches Some(pl)
                    && map.lanes@[l as int].parking_to_driving is Some
                    && pl.wf() && pl.parking_lane == l
                    && pl.driving_lane == map.lanes@[l as int].parking_to_driving->Some_0
                    && pl.sidewalk == map.lanes@[l as int].closest_sidewalk->Some_0
                    && i < pl.num_spots(),
                ParkingSpot::Offstreet(b, _) => map.buildings@[b as int].parking is Some,
                ParkingSpot::Lot(_, _) => true,
            },
    {
        match spot {
            ParkingSpot::Onstreet(l, i) => {
                if l < map.lanes@.len() {
                    assert(self.onstreet_lanes@[l as int] is Some == has_curb_parking(map, l));
                }
            },
            ParkingSpot::Offstreet(b, i) => {
                if b < map.buildings@.len() {
                    assert(self.offstreet_slots@[b as int]@.len() == offstreet_capacity(map, b));
                }
            },
            ParkingSpot::Lot(pl, i) => {
                if pl < map.lots@.len() {
                    assert(self.lot_slots@[pl as int]@.len() == lot_capacity(map, pl));
                }
            },
        }
    }

    /// Changing slot states, parked cars or events keeps the store matched
    /// to its network.
    pub(crate) proof fn lemma_same_indexes_built_from(&self, other: &ParkingSimState, map: RoadNetwork)
        requires
            other.built_from(map),
            self.same_indexes(other),
        ensures
            self.built_from(map),
    {
        assert forall|l: int| 0 <= l < map.lanes@.len() implies self.onstreet_slots@[l]@.len() == other.onstreet_slots@[l]@.len()
            && (#[trigger] self.onstreet_lanes@[l]) == other.onstreet_lanes@[l] by {}
        assert forall|b: int| 0 <= b < map.buildings@.len() implies (#[trigger] self.offstreet_slots@[b])@.len() == other.offstreet_slots@[b]@.len() by {}
        assert forall|pl: int| 0 <= pl < map.lots@.len() implies (#[trigger] self.lot_slots@[pl])@.len() == other.lot_slots@[pl]@.len() by {}
        assert forall|d: int| 0 <= d < map.lanes@.len() implies (#[trigger] self.driving_to_parking_lanes@[d]) == other.driving_to_parking_lanes@[d] by {}
    }
}

} // verus!
