//! Fixed slot geometry of one on-street parking lane.
use vstd::prelude::*;
use crate::network::{LaneType, RoadNetwork};
use crate::types::{Distance, LaneID, ParkingSpot, Vehicle, MAX_DIST, MAX_SPOTS, PARKING_SPOT_LENGTH};

verus! {

/// Front (farthest along the lane) of slot `idx`.
pub open spec fn slot_front(idx: int) -> int {
    PARKING_SPOT_LENGTH * (2 + idx)
}

/// Where the front bumper of a car of length `len` sits when it is centered
/// in a slot whose front is at `front`.
pub open spec fn centered_front(front: int, len: int) -> int {
    if len <= PARKING_SPOT_LENGTH {
        front - (PARKING_SPOT_LENGTH - len) / 2
    } else {
        front + (len - PARKING_SPOT_LENGTH) / 2
    }
}

/// An on-street parking lane with its paired driving lane, its sidewalk and
/// the front of each of its slots.
#[derive(Clone, Debug)]
pub struct ParkingLane {
    pub parking_lane: LaneID,
    pub driving_lane: LaneID,
    pub sidewalk: LaneID,
    pub spot_dist_along: Vec<Distance>,
}

impl ParkingLane {
    pub open spec fn wf(&self) -> bool {
        &&& self.spot_dist_along@.len() <= MAX_SPOTS
        &&& forall|i: int|
            0 <= i < self.spot_dist_along@.len() ==> #[trigger] self.spot_dist_along@[i]
                == slot_front(i)
    }

    pub open spec fn num_spots(&self) -> nat {
        self.spot_dist_along@.len()
    }

    /// Whether lane `l` of `map` gets curb parking.
    pub open spec fn kept(map: RoadNetwork, l: LaneID) -> bool {
        let lane = map.lanes@[l as int];
        &&& lane.lane_type == LaneType::Parking
        &&& !map.lanes@[lane.parking_to_driving->Some_0 as int].parking_blackhole
        &&& lane.closest_sidewalk is Some
    }

    /// Builds the slot geometry of lane `l`; `None` unless the lane is a
    /// parking lane whose driving lane is reachable and which has a sidewalk.
    /// A lane without slots gets an empty slot list.
    pub fn new(l: LaneID, map: &RoadNetwork) -> (r: Option<ParkingLane>)
        requires
            map.wf(),
            map.valid_lane(l),
            map.lanes@[l as int].lane_type == LaneType::Parking
                ==> map.lanes@[l as int].parking_to_driving is Some,
        ensures
            r is Some <==> Self::kept(*map, l),
            r matches Some(pl) ==> {
                &&& map.lanes@[l as int].parking_to_driving is Some
                &&& pl.wf()
                &&& pl.parking_lane == l
                &&& pl.driving_lane == map.lanes@[l as int].parking_to_driving->Some_0
                &&& pl.sidewalk == map.lanes@[l as int].closest_sidewalk->Some_0
                &&& pl.num_spots() == map.lanes@[l as int].num_parking_spots
            },
    {
        proof {
            assert(map.lane_wf(l as int));
        }
        let lane = &map.lanes[l];
        if lane.lane_type != LaneType::Parking {
            return None;
        }
        let driving_lane = match lane.parking_to_driving {
            Some(d) => d,
            None => { return None; },
        };
        if map.lanes[driving_lane].parking_blackhole {
            return None;
        }
        let sidewalk = match lane.closest_sidewalk {
            Some(s) => s,
            None => { return None; },
        };
        let n = lane.num_parking_spots;
        let mut spot_dist_along: Vec<Distance> = Vec::new();
        let mut idx: usize = 0;
        while idx < n
            invariant
                n <= MAX_SPOTS,
                idx <= n,
                spot_dist_along@.len() == idx,
                forall|i: int| 0 <= i < idx ==> #[trigger] spot_dist_along@[i] == slot_front(i),
            decreases n - idx,
        {
            spot_dist_along.push(PARKING_SPOT_LENGTH * (2 + idx as u64));
            idx = idx + 1;
        }
        Some(ParkingLane { parking_lane: l, driving_lane, sidewalk, spot_dist_along })
    }

    /// Offset along the parking lane of the front bumper of `vehicle` when it
    /// is centered in slot `spot_idx`.
    pub fn dist_along_for_car(&self, spot_idx: usize, vehicle: &Vehicle) -> (r: Distance)
        requires
            self.wf(),
            spot_idx < self.num_spots(),
            vehicle.wf(),
        ensures
            r == centered_front(slot_front(spot_idx as int), vehicle.length as int),
    {
        let front = self.spot_dist_along[spot_idx];
        if vehicle.length <= PARKING_SPOT_LENGTH {
            front - (PARKING_SPOT_LENGTH - vehicle.length) / 2
        } else {
            front + (vehicle.length - PARKING_SPOT_LENGTH) / 2
        }
    }

    /// Every slot of the lane, in index order.
    pub fn spots(&self) -> (r: Vec<ParkingSpot>)
        ensures
            r@.len() == self.num_spots(),
            forall|i: int|
                0 <= i < r@.len() ==> #[trigger] r@[i] == ParkingSpot::Onstreet(
                    self.parking_lane,
                    i as usize,
                ),
    {
        let mut spots: Vec<ParkingSpot> = Vec::new();
        let n = self.spot_dist_along.len();
        let mut idx: usize = 0;
        while idx < n
            invariant
                n == self.num_spots(),
                idx <= n,
                spots@.len() == idx,
                forall|i: int|
                    0 <= i < idx ==> #[trigger] spots@[i] == ParkingSpot::Onstreet(
                        self.parking_lane,
                        i as usize,
                    ),
            decreases n - idx,
        {
            spots.push(ParkingSpot::Onstreet(self.parking_lane, idx));
            idx = idx + 1;
        }
        spots
    }
}

} // verus!
