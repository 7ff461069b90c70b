//! Identifiers and value types shared by the whole crate.
use vstd::prelude::*;

verus! {

/// Index of a lane in a [`crate::network::RoadNetwork`].
pub type LaneID = usize;

/// Index of a building in a [`crate::network::RoadNetwork`].
pub type BuildingID = usize;

/// Index of a parking lot in a [`crate::network::RoadNetwork`].
pub type ParkingLotID = usize;

/// Identity of a vehicle.
pub type CarID = usize;

/// Identity of a person owning a vehicle.
pub type PersonID = usize;

/// A length along a lane, in millimeters.
pub type Distance = u64;

/// Nominal length of one curb parking slot (8 m).
pub const PARKING_SPOT_LENGTH: u64 = 8000;

/// Upper bound on every length and offset held by a well-formed network.
pub const MAX_DIST: u64 = 1_000_000_000;

/// Upper bound on the number of lanes of a well-formed network.
pub const MAX_LANES: usize = 1_000_000_000;

/// Upper bound on the number of spots of one lane, building or lot.
pub const MAX_SPOTS: usize = 100_000;

/// One addressable parking location.
#[derive(Clone, Copy, Debug, PartialEq, Eq, Structural)]
pub enum ParkingSpot {
    /// Slot `idx` of an on-street parking lane, counted from the lane start.
    Onstreet(LaneID, usize),
    /// Slot `idx` of a building's garage.
    Offstreet(BuildingID, usize),
    /// Slot `idx` of a surface parking lot.
    Lot(ParkingLotID, usize),
}

/// A point along a lane.
#[derive(Clone, Copy, Debug, PartialEq, Eq, Structural)]
pub struct Position {
    pub lane: LaneID,
    pub dist_along: Distance,
}

impl Position {
    pub fn new(lane: LaneID, dist_along: Distance) -> (r: Position)
        ensures
            r.lane == lane,
            r.dist_along == dist_along,
    {
        Position { lane, dist_along }
    }
}

/// A vehicle as the parking store sees it.
#[derive(Clone, Copy, Debug, PartialEq, Eq, Structural)]
pub struct Vehicle {
    pub id: CarID,
    pub length: Distance,
    pub owner: Option<PersonID>,
}

impl Vehicle {
    pub open spec fn wf(&self) -> bool {
        self.length <= MAX_DIST
    }
}

/// A vehicle bound to the spot it occupies.
#[derive(Clone, Copy, Debug, PartialEq, Eq, Structural)]
pub struct ParkedCar {
    pub vehicle: Vehicle,
    pub spot: ParkingSpot,
}

/// A turn between two lanes, named by its source and destination.
#[derive(Clone, Copy, Debug, PartialEq, Eq, Structural)]
pub struct TurnID {
    pub src: LaneID,
    pub dst: LaneID,
}

/// One step of a route: crossing a turn or driving along a lane.
#[derive(Clone, Copy, Debug, PartialEq, Eq, Structural)]
pub enum PathStep {
    Lane(LaneID),
    Turn(TurnID),
}

/// Something that happened to a parked car, buffered until collected.
#[derive(Clone, Copy, Debug, PartialEq, Eq, Structural)]
pub enum Event {
    CarReachedParkingSpot(CarID, ParkingSpot),
    CarLeftParkingSpot(CarID, ParkingSpot),
}

} // verus!
