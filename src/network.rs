//! The static road network that the parking store is built from and queries.
use vstd::prelude::*;
use crate::types::{Distance, LaneID, Position, TurnID, MAX_DIST, MAX_LANES, MAX_SPOTS};

verus! {

/// What a lane is used for.
#[derive(Clone, Copy, Debug, PartialEq, Eq, Structural)]
pub enum LaneType {
    Driving,
    Parking,
    Sidewalk,
    Biking,
    Bus,
}

/// A turn that cars may take out of a lane, with its geometric length.
#[derive(Clone, Copy, Debug, PartialEq, Eq, Structural)]
pub struct Turn {
    pub id: TurnID,
    pub length: Distance,
}

/// Static attributes of one lane.
#[derive(Clone, Debug)]
pub struct LaneInfo {
    pub lane_type: LaneType,
    pub length: Distance,
    /// Road that the lane belongs to.
    pub road: usize,
    /// Whether the lane runs in its road's forward direction.
    pub forwards: bool,
    /// Whether parking reached from this (driving) lane is unreachable.
    pub parking_blackhole: bool,
    /// For a parking lane: the driving lane that it is paired with.
    pub parking_to_driving: Option<LaneID>,
    /// The closest sidewalk, if any.
    pub closest_sidewalk: Option<LaneID>,
    /// For a parking lane: how many curb slots it holds.
    pub num_parking_spots: usize,
    /// Turns that cars may take out of this lane.
    pub car_turns: Vec<Turn>,
}

/// Parking inside a building.
#[derive(Clone, Copy, Debug, PartialEq, Eq, Structural)]
pub struct OffstreetParking {
    /// Where on a driving lane the garage is entered.
    pub driving_pos: Position,
    pub num_spots: usize,
    /// Whether the garage is open to the public (otherwise only to trips
    /// bound for the building itself).
    pub public_garage: bool,
}

/// Static attributes of one building.
#[derive(Clone, Copy, Debug, PartialEq, Eq, Structural)]
pub struct BuildingInfo {
    pub parking: Option<OffstreetParking>,
    /// Where pedestrians reach the building.
    pub sidewalk_pos: Position,
}

/// Static attributes of one surface parking lot.
#[derive(Clone, Copy, Debug, PartialEq, Eq, Structural)]
pub struct LotInfo {
    pub num_spots: usize,
    /// Where on a driving lane the lot is entered.
    pub driving_pos: Position,
    /// Where pedestrians reach the lot.
    pub sidewalk_pos: Position,
}

/// A road network: lanes, buildings and lots, each named by its index.
#[derive(Clone, Debug)]
pub struct RoadNetwork {
    pub lanes: Vec<LaneInfo>,
    pub buildings: Vec<BuildingInfo>,
    pub lots: Vec<LotInfo>,
}

impl RoadNetwork {
    pub open spec fn valid_lane(&self, l: LaneID) -> bool {
        l < self.lanes@.len()
    }

    pub open spec fn valid_pos(&self, p: Position) -> bool {
        self.valid_lane(p.lane) && p.dist_along <= MAX_DIST
    }

    pub open spec fn lane_wf(&self, l: int) -> bool {
        let lane = self.lanes@[l];
        &&& lane.length <= MAX_DIST
        &&& lane.num_parking_spots <= MAX_SPOTS
        &&& (lane.parking_to_driving matches Some(d) ==> self.valid_lane(d))
        &&& (lane.closest_sidewalk matches Some(s) ==> self.valid_lane(s))
        &&& forall|t: int|
            0 <= t < lane.car_turns@.len() ==> {
                let turn = #[trigger] lane.car_turns@[t];
                &&& turn.id.src == l
                &&& self.valid_lane(turn.id.dst)
                &&& turn.length <= MAX_DIST
            }
    }

    pub open spec fn building_wf(&self, b: int) -> bool {
        let bldg = self.buildings@[b];
        &&& self.valid_pos(bldg.sidewalk_pos)
        &&& (bldg.parking matches Some(p) ==> self.valid_pos(p.driving_pos) && p.num_spots
            <= MAX_SPOTS)
    }

    pub open spec fn lot_wf(&self, pl: int) -> bool {
        let lot = self.lots@[pl];
        &&& self.valid_pos(lot.driving_pos)
        &&& self.valid_pos(lot.sidewalk_pos)
        &&& lot.num_spots <= MAX_SPOTS
    }

    /// Every index in the network names an existing lane and every length
    /// is within bounds.
    pub open spec fn wf(&self) -> bool {
        &&& self.lanes@.len() <= MAX_LANES
        &&& forall|l: int| 0 <= l < self.lanes@.len() ==> #[trigger] self.lane_wf(l)
        &&& forall|b: int| 0 <= b < self.buildings@.len() ==> #[trigger] self.building_wf(b)
        &&& forall|pl: int| 0 <= pl < self.lots@.len() ==> #[trigger] self.lot_wf(pl)
    }

    /// The position on lane `to` that corresponds to `from`: the same offset
    /// when both lanes run the same way, mirrored (shifted by `our_len`) when
    /// they run opposite ways, clamped to the target lane.
    pub open spec fn equiv_pos_spec(&self, from: Position, to: LaneID, our_len: Distance) -> Position {
        let len = self.lanes@[to as int].length;
        if self.lanes@[to as int].forwards == self.lanes@[from.lane as int].forwards {
            Position { lane: to, dist_along: if from.dist_along <= len { from.dist_along } else { len } }
        } else {
            let mirrored = len + our_len - from.dist_along;
            Position {
                lane: to,
                dist_along: if mirrored <= 0 { 0 } else if mirrored <= len { mirrored as u64 } else { len },
            }
        }
    }

    pub fn equiv_pos(&self, from: Position, to: LaneID, our_len: Distance) -> (r: Position)
        requires
            self.wf(),
            self.valid_lane(from.lane),
            self.valid_lane(to),
            our_len <= MAX_DIST,
        ensures
            r == self.equiv_pos_spec(from, to, our_len),
            r.dist_along <= MAX_DIST,
    {
        proof {
            assert(self.lane_wf(to as int));
        }
        let len = self.lanes[to].length;
        if self.lanes[to].forwards == self.lanes[from.lane].forwards {
            let d = if from.dist_along <= len { from.dist_along } else { len };
            Position { lane: to, dist_along: d }
        } else {
            let total = len + our_len;
            let d = if total <= from.dist_along {
                0
            } else if total - from.dist_along <= len {
                total - from.dist_along
            } else {
                len
            };
            Position { lane: to, dist_along: d }
        }
    }

    /// Every parking lane is paired with a driving lane.
    pub open spec fn parking_lanes_paired(&self) -> bool {
        forall|l: int|
            0 <= l < self.lanes@.len() && (#[trigger] self.lanes@[l]).lane_type == LaneType::Parking
                ==> self.lanes@[l].parking_to_driving is Some
    }

    fn check_pos(&self, p: Position) -> (r: bool)
        ensures
            r == self.valid_pos(p),
    {
        p.lane < self.lanes.len() && p.dist_along <= MAX_DIST
    }

    fn check_lane(&self, l: usize) -> (r: bool)
        requires
            l < self.lanes@.len(),
        ensures
            r == (self.lane_wf(l as int) && (self.lanes@[l as int].lane_type == LaneType::Parking
                ==> self.lanes@[l as int].parking_to_driving is Some)),
    {
        let n = self.lanes.len();
        let lane = &self.lanes[l];
        let ok = lane.length <= MAX_DIST && lane.num_parking_spots <= MAX_SPOTS && match lane.parking_to_driving {
            Some(d) => d < n,
            None => lane.lane_type != LaneType::Parking,
        } && match lane.closest_sidewalk {
            Some(s) => s < n,
            None => true,
        };
        if !ok {
            return false;
        }
        let mut j: usize = 0;
        while j < lane.car_turns.len()
            invariant
                n == self.lanes@.len(),
                lane == &self.lanes@[l as int],
                j <= lane.car_turns@.len(),
                forall|t: int|
                    0 <= t < j ==> {
                        let turn = #[trigger] lane.car_turns@[t];
                        &&& turn.id.src == l
                        &&& self.valid_lane(turn.id.dst)
                        &&& turn.length <= MAX_DIST
                    },
            decreases lane.car_turns@.len() - j,
        {
            let turn = lane.car_turns[j];
            if !(turn.id.src == l && turn.id.dst < n && turn.length <= MAX_DIST) {
                return false;
            }
            j = j + 1;
        }
        true
    }

    /// Whether the network is well formed and pairs every parking lane with
    /// a driving lane, as building a parking store from it requires.
    pub fn check(&self) -> (r: bool)
        ensures
            r == (self.wf() && self.parking_lanes_paired()),
    {
        if self.lanes.len() > MAX_LANES {
            return false;
        }
        let mut l: usize = 0;
        while l < self.lanes.len()
            invariant
                self.lanes@.len() <= MAX_LANES,
                l <= self.lanes@.len(),
                forall|x: int| 0 <= x < l ==> #[trigger] self.lane_wf(x) && (self.lanes@[x].lane_type
                    == LaneType::Parking ==> self.lanes@[x].parking_to_driving is Some),
            decreases self.lanes@.len() - l,
        {
            let ok = self.check_lane(l);
            if !ok {
                proof {
                    assert(!self.lane_wf(l as int) || (self.lanes@[l as int].lane_type == LaneType::Parking
                        && self.lanes@[l as int].parking_to_driving is None));
                }
                return false;
            }
            let ghost l0 = l;
            l = l + 1;
            proof {
                assert forall|x: int| 0 <= x < l implies #[trigger] self.lane_wf(x) && (self.lanes@[x].lane_type
                    == LaneType::Parking ==> self.lanes@[x].parking_to_driving is Some) by {
                    if x == l0 {
                        assert(self.lane_wf(l0 as int));
                        assert(self.lanes@[l0 as int].lane_type == LaneType::Parking ==> self.lanes@[l0 as int].parking_to_driving is Some);
                    } else {
                        assert(x < l0);
                        assert(self.lane_wf(x));
                    }
                }
            }
        }
        proof {
            assert forall|x: int| 0 <= x < self.lanes@.len() implies #[trigger] self.lane_wf(x) && (self.lanes@[x].lane_type
                == LaneType::Parking ==> self.lanes@[x].parking_to_driving is Some) by {
                assert(x < l);
            }
        }
        let mut b: usize = 0;
        while b < self.buildings.len()
            invariant
                self.lanes@.len() <= MAX_LANES,
                forall|x: int| 0 <= x < self.lanes@.len() ==> #[trigger] self.lane_wf(x) && (self.lanes@[x].lane_type
                    == LaneType::Parking ==> self.lanes@[x].parking_to_driving is Some),
                b <= self.buildings@.len(),
                forall|x: int| 0 <= x < b ==> #[trigger] self.building_wf(x),
            decreases self.buildings@.len() - b,
        {
            let bldg = &self.buildings[b];
            if !self.check_pos(bldg.sidewalk_pos) {
                proof {
                    assert(!self.building_wf(b as int));
                }
                return false;
            }
            match bldg.parking {
                Some(p) => {
                    if !(self.check_pos(p.driving_pos) && p.num_spots <= MAX_SPOTS) {
                        proof {
                            assert(!self.building_wf(b as int));
                        }
                        return false;
                    }
                },
                None => {},
            }
            b = b + 1;
        }
        let mut pl: usize = 0;
        while pl < self.lots.len()
            invariant
                self.lanes@.len() <= MAX_LANES,
                forall|x: int| 0 <= x < self.lanes@.len() ==> #[trigger] self.lane_wf(x) && (self.lanes@[x].lane_type
                    == LaneType::Parking ==> self.lanes@[x].parking_to_driving is Some),
                forall|x: int| 0 <= x < self.buildings@.len() ==> #[trigger] self.building_wf(x),
                pl <= self.lots@.len(),
                forall|x: int| 0 <= x < pl ==> #[trigger] self.lot_wf(x),
            decreases self.lots@.len() - pl,
        {
            let lot = &self.lots[pl];
            if !(self.check_pos(lot.driving_pos) && self.check_pos(lot.sidewalk_pos) && lot.num_spots <= MAX_SPOTS) {
                proof {
                    assert(!self.lot_wf(pl as int));
                }
                return false;
            }
            pl = pl + 1;
        }
        proof {
            assert forall|l: int|
                0 <= l < self.lanes@.len() && (#[trigger] self.lanes@[l]).lane_type == LaneType::Parking implies self.lanes@[l].parking_to_driving is Some by {
                assert(self.lane_wf(l));
            }
        }
        true
    }
}

} // verus!
