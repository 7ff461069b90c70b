use parking_sim::models::{choose_turn, FOLLOWING_DISTANCE};
use parking_sim::network::{BuildingInfo, LaneInfo, LaneType, LotInfo, OffstreetParking, RoadNetwork, Turn};
use parking_sim::parking::ParkingSimState;
use parking_sim::parking_lane::ParkingLane;
use parking_sim::setup::parking_lanes_without_sidewalk;
use parking_sim::snapshot::ParkingSnapshot;
use parking_sim::types::{Event, ParkedCar, ParkingSpot, PathStep, Position, TurnID, Vehicle};
use std::collections::VecDeque;

fn lane(lane_type: LaneType, road: usize) -> LaneInfo {
    LaneInfo {
        lane_type,
        length: 100_000,
        road,
        forwards: true,
        parking_blackhole: false,
        parking_to_driving: None,
        closest_sidewalk: None,
        num_parking_spots: 0,
        car_turns: Vec::new(),
    }
}

fn parking_lane(road: usize, driving: usize, sidewalk: usize, spots: usize) -> LaneInfo {
    let mut l = lane(LaneType::Parking, road);
    l.parking_to_driving = Some(driving);
    l.closest_sidewalk = Some(sidewalk);
    l.num_parking_spots = spots;
    l
}

fn turn(src: usize, dst: usize) -> Turn {
    Turn { id: TurnID { src, dst }, length: 5_000 }
}

fn car(id: usize) -> Vehicle {
    Vehicle { id, length: 4_500, owner: Some(100 + id) }
}

fn parked(id: usize, spot: ParkingSpot) -> ParkedCar {
    ParkedCar { vehicle: car(id), spot }
}

/// Lane 0 drives along road 0; lane 1 is its curb lane with `spots` slots;
/// lane 2 is the sidewalk.
fn one_street(spots: usize) -> RoadNetwork {
    RoadNetwork {
        lanes: vec![lane(LaneType::Driving, 0), parking_lane(0, 0, 2, spots), lane(LaneType::Sidewalk, 0)],
        buildings: Vec::new(),
        lots: Vec::new(),
    }
}

/// Driving lanes 0 -> 1 -> 2 in a chain; lane 3 is a curb lane of lane
/// `parked_on` with one slot; lane 4 is a sidewalk.
fn chain(parked_on: usize) -> RoadNetwork {
    let mut a = lane(LaneType::Driving, 0);
    a.car_turns.push(turn(0, 1));
    let mut b = lane(LaneType::Driving, 1);
    b.car_turns.push(turn(1, 2));
    let c = lane(LaneType::Driving, 2);
    RoadNetwork {
        lanes: vec![a, b, c, parking_lane(parked_on, parked_on, 4, 1), lane(LaneType::Sidewalk, parked_on)],
        buildings: Vec::new(),
        lots: Vec::new(),
    }
}

/// Driving lane 0 with a private garage (building 0, two spots, entrance at
/// 30 m), a public garage (building 1, one spot, entrance at 60 m) and a lot
/// (three spots, entrance at 50 m).
fn garages() -> RoadNetwork {
    let side = Position { lane: 1, dist_along: 0 };
    RoadNetwork {
        lanes: vec![lane(LaneType::Driving, 0), lane(LaneType::Sidewalk, 0)],
        buildings: vec![
            BuildingInfo {
                parking: Some(OffstreetParking {
                    driving_pos: Position { lane: 0, dist_along: 30_000 },
                    num_spots: 2,
                    public_garage: false,
                }),
                sidewalk_pos: side,
            },
            BuildingInfo {
                parking: Some(OffstreetParking {
                    driving_pos: Position { lane: 0, dist_along: 60_000 },
                    num_spots: 1,
                    public_garage: true,
                }),
                sidewalk_pos: side,
            },
        ],
        lots: vec![LotInfo {
            num_spots: 3,
            driving_pos: Position { lane: 0, dist_along: 50_000 },
            sidewalk_pos: Position { lane: 1, dist_along: 50_000 },
        }],
    }
}

#[test]
fn is_free_tracks_reservations_and_occupants() {
    let map = one_street(2);
    let mut st = ParkingSimState::new(&map);
    let s0 = ParkingSpot::Onstreet(1, 0);
    let s1 = ParkingSpot::Onstreet(1, 1);
    assert!(st.is_free(s0));
    st.reserve_spot(s0);
    assert!(!st.is_free(s0));
    assert!(st.is_free(s1));
    st.add_parked_car(parked(7, s0));
    assert!(!st.is_free(s0));
    assert!(st.is_free(s1));
}

#[test]
fn reserve_then_park_occupies_spot() {
    let map = one_street(3);
    let mut st = ParkingSimState::new(&map);
    let spot = ParkingSpot::Onstreet(1, 2);
    st.reserve_spot(spot);
    assert!(st.get_car_at_spot(spot).is_none());
    st.add_parked_car(parked(9, spot));
    assert!(!st.is_free(spot));
    assert_eq!(st.get_car_at_spot(spot).unwrap().vehicle.id, 9);
    assert_eq!(st.lookup_parked_car(9).unwrap().spot, spot);
    assert_eq!(st.get_owner_of_car(9), Some(109));
    let (filled, available) = st.get_all_parking_spots();
    assert_eq!(filled, vec![spot]);
    assert_eq!(available, vec![ParkingSpot::Onstreet(1, 0), ParkingSpot::Onstreet(1, 1)]);
}

#[test]
fn spot_is_reusable_after_car_leaves() {
    let map = one_street(1);
    let mut st = ParkingSimState::new(&map);
    let spot = ParkingSpot::Onstreet(1, 0);
    st.reserve_spot(spot);
    st.add_parked_car(parked(1, spot));
    st.remove_parked_car(parked(1, spot));
    assert!(st.is_free(spot));
    assert!(st.lookup_parked_car(1).is_none());
    st.reserve_spot(spot);
    st.add_parked_car(parked(2, spot));
    assert_eq!(st.get_car_at_spot(spot).unwrap().vehicle.id, 2);
    assert_eq!(st.get_owner_of_car(1), None);
}

#[test]
fn events_are_collected_in_order_and_drained() {
    let map = one_street(1);
    let mut st = ParkingSimState::new(&map);
    let spot = ParkingSpot::Onstreet(1, 0);
    st.reserve_spot(spot);
    st.add_parked_car(parked(4, spot));
    st.remove_parked_car(parked(4, spot));
    assert_eq!(
        st.collect_events(),
        vec![Event::CarReachedParkingSpot(4, spot), Event::CarLeftParkingSpot(4, spot)]
    );
    assert!(st.collect_events().is_empty());
}

#[test]
fn onstreet_spots_listed_by_index_and_reservation_removes_one() {
    let map = one_street(3);
    let mut st = ParkingSimState::new(&map);
    assert_eq!(
        st.get_free_onstreet_spots(1),
        vec![ParkingSpot::Onstreet(1, 0), ParkingSpot::Onstreet(1, 1), ParkingSpot::Onstreet(1, 2)]
    );
    st.reserve_spot(ParkingSpot::Onstreet(1, 1));
    assert_eq!(
        st.get_free_onstreet_spots(1),
        vec![ParkingSpot::Onstreet(1, 0), ParkingSpot::Onstreet(1, 2)]
    );
    assert!(st.get_free_onstreet_spots(0).is_empty());
}

#[test]
fn free_spots_only_ahead_of_vehicle() {
    let map = one_street(3);
    let st = ParkingSimState::new(&map);
    // Slot fronts are at 16, 24 and 32 m; a 4.5 m car centered in a slot has
    // its front 1.75 m short of the slot front.
    let found = st.get_all_free_spots(Position { lane: 0, dist_along: 20_000 }, &car(1), 0, &map);
    let spots: Vec<ParkingSpot> = found.iter().map(|p| p.0).collect();
    assert_eq!(spots, vec![ParkingSpot::Onstreet(1, 1), ParkingSpot::Onstreet(1, 2)]);
    assert_eq!(found[0].1, Position { lane: 0, dist_along: 22_250 });
    assert_eq!(found[1].1, Position { lane: 0, dist_along: 30_250 });
    let none = st.get_all_free_spots(Position { lane: 0, dist_along: 30_250 }, &car(1), 0, &map);
    assert!(none.is_empty());
}

#[test]
fn private_garage_only_for_its_own_building() {
    let map = garages();
    let st = ParkingSimState::new(&map);
    let start = Position { lane: 0, dist_along: 0 };
    let through: Vec<ParkingSpot> = st.get_all_free_spots(start, &car(1), 1, &map).iter().map(|p| p.0).collect();
    assert_eq!(
        through,
        vec![
            ParkingSpot::Offstreet(1, 0),
            ParkingSpot::Lot(0, 0),
            ParkingSpot::Lot(0, 1),
            ParkingSpot::Lot(0, 2),
        ]
    );
    let home: Vec<ParkingSpot> = st.get_all_free_spots(start, &car(1), 0, &map).iter().map(|p| p.0).collect();
    assert_eq!(
        home,
        vec![
            ParkingSpot::Offstreet(0, 0),
            ParkingSpot::Offstreet(0, 1),
            ParkingSpot::Offstreet(1, 0),
            ParkingSpot::Lot(0, 0),
            ParkingSpot::Lot(0, 1),
            ParkingSpot::Lot(0, 2),
        ]
    );
    let past_garage: Vec<ParkingSpot> =
        st.get_all_free_spots(Position { lane: 0, dist_along: 30_000 }, &car(1), 0, &map).iter().map(|p| p.0).collect();
    assert!(!past_garage.contains(&ParkingSpot::Offstreet(0, 0)));
    assert_eq!(st.get_free_offstreet_spots(0), vec![ParkingSpot::Offstreet(0, 0), ParkingSpot::Offstreet(0, 1)]);
    assert_eq!(
        st.get_free_lot_spots(0),
        vec![ParkingSpot::Lot(0, 0), ParkingSpot::Lot(0, 1), ParkingSpot::Lot(0, 2)]
    );
}

#[test]
fn garage_and_lot_positions() {
    let map = garages();
    let st = ParkingSimState::new(&map);
    let garage = ParkingSpot::Offstreet(1, 0);
    let lot = ParkingSpot::Lot(0, 2);
    assert_eq!(st.spot_to_driving_pos(garage, &car(1), &map), Position { lane: 0, dist_along: 60_000 });
    assert_eq!(st.spot_to_sidewalk_pos(garage, &map), Position { lane: 1, dist_along: 0 });
    assert_eq!(st.spot_to_driving_pos(lot, &car(1), &map), Position { lane: 0, dist_along: 50_000 });
    assert_eq!(st.spot_to_sidewalk_pos(lot, &map), Position { lane: 1, dist_along: 50_000 });
}

#[test]
fn curb_positions_center_the_car() {
    let map = one_street(2);
    let st = ParkingSimState::new(&map);
    let spot = ParkingSpot::Onstreet(1, 1);
    assert_eq!(st.spot_to_driving_pos(spot, &car(1), &map), Position { lane: 0, dist_along: 22_250 });
    let long = Vehicle { id: 2, length: 12_000, owner: None };
    assert_eq!(st.spot_to_driving_pos(spot, &long, &map), Position { lane: 0, dist_along: 26_000 });
    assert_eq!(st.spot_to_sidewalk_pos(spot, &map), Position { lane: 2, dist_along: 20_000 });
}

#[test]
fn opposite_lanes_mirror_positions() {
    let mut map = one_street(1);
    map.lanes[0].forwards = false;
    let st = ParkingSimState::new(&map);
    // Front at 14.25 m on the curb lane, mirrored on the 100 m driving lane
    // and shifted by the car's length.
    assert_eq!(
        st.spot_to_driving_pos(ParkingSpot::Onstreet(1, 0), &car(1), &map),
        Position { lane: 0, dist_along: 90_250 }
    );
}

#[test]
fn search_finds_spot_one_turn_away() {
    let map = chain(1);
    let st = ParkingSimState::new(&map);
    let (path, spot, pos) = st.path_to_free_parking_spot(0, &car(1), 0, &map).unwrap();
    assert_eq!(path, vec![PathStep::Turn(TurnID { src: 0, dst: 1 }), PathStep::Lane(1)]);
    assert_eq!(spot, ParkingSpot::Onstreet(3, 0));
    assert_eq!(pos, st.spot_to_driving_pos(spot, &car(1), &map));
    assert_eq!(pos, Position { lane: 1, dist_along: 14_250 });
}

#[test]
fn search_finds_spot_two_turns_away() {
    let map = chain(2);
    let st = ParkingSimState::new(&map);
    let (path, spot, _) = st.path_to_free_parking_spot(0, &car(1), 0, &map).unwrap();
    assert_eq!(
        path,
        vec![
            PathStep::Turn(TurnID { src: 0, dst: 1 }),
            PathStep::Lane(1),
            PathStep::Turn(TurnID { src: 1, dst: 2 }),
            PathStep::Lane(2),
        ]
    );
    assert_eq!(spot, ParkingSpot::Onstreet(3, 0));
}

#[test]
fn search_ignores_spot_on_start_lane() {
    let map = chain(0);
    let st = ParkingSimState::new(&map);
    assert!(st.path_to_free_parking_spot(0, &car(1), 0, &map).is_none());
}

#[test]
fn search_without_free_spot_finds_nothing() {
    let map = chain(2);
    let mut st = ParkingSimState::new(&map);
    st.reserve_spot(ParkingSpot::Onstreet(3, 0));
    assert!(st.path_to_free_parking_spot(0, &car(1), 0, &map).is_none());
    let none = one_street(0);
    let st = ParkingSimState::new(&none);
    assert!(st.path_to_free_parking_spot(0, &car(1), 0, &none).is_none());
}

#[test]
fn search_prefers_closer_lane() {
    // 0 -> 1 (short) and 0 -> 2 (long turn); both 1 and 2 have a curb slot.
    let mut a = lane(LaneType::Driving, 0);
    a.car_turns.push(Turn { id: TurnID { src: 0, dst: 2 }, length: 50_000 });
    a.car_turns.push(Turn { id: TurnID { src: 0, dst: 1 }, length: 1_000 });
    let map = RoadNetwork {
        lanes: vec![
            a,
            lane(LaneType::Driving, 1),
            lane(LaneType::Driving, 2),
            parking_lane(1, 1, 5, 1),
            parking_lane(2, 2, 5, 1),
            lane(LaneType::Sidewalk, 1),
        ],
        buildings: Vec::new(),
        lots: Vec::new(),
    };
    let st = ParkingSimState::new(&map);
    let (path, spot, _) = st.path_to_free_parking_spot(0, &car(1), 0, &map).unwrap();
    assert_eq!(path, vec![PathStep::Turn(TurnID { src: 0, dst: 1 }), PathStep::Lane(1)]);
    assert_eq!(spot, ParkingSpot::Onstreet(3, 0));
}

#[test]
fn blackhole_and_sidewalkless_lanes_are_left_out() {
    let mut map = one_street(2);
    map.lanes[0].parking_blackhole = true;
    let st = ParkingSimState::new(&map);
    assert!(!st.has_spot(ParkingSpot::Onstreet(1, 0)));
    assert!(st.get_free_onstreet_spots(1).is_empty());
    let mut map = one_street(2);
    map.lanes[1].closest_sidewalk = None;
    let st = ParkingSimState::new(&map);
    assert!(!st.has_spot(ParkingSpot::Onstreet(1, 0)));
    let (filled, available) = st.get_all_parking_spots();
    assert!(filled.is_empty() && available.is_empty());
}

#[test]
fn snapshot_round_trip_keeps_state() {
    let mut map = garages();
    map.lanes.push(lane(LaneType::Driving, 1));
    map.lanes.push(parking_lane(1, 2, 1, 2));
    let mut st = ParkingSimState::new(&map);
    st.reserve_spot(ParkingSpot::Onstreet(3, 1));
    st.reserve_spot(ParkingSpot::Offstreet(0, 1));
    st.add_parked_car(parked(5, ParkingSpot::Offstreet(0, 1)));
    st.reserve_spot(ParkingSpot::Lot(0, 0));
    st.add_parked_car(parked(6, ParkingSpot::Lot(0, 0)));
    st.reserve_spot(ParkingSpot::Lot(0, 2));
    let snap = st.save();
    let back = ParkingSimState::restore(&map, &snap).unwrap();
    assert_eq!(back.save(), snap);
    assert_eq!(back.get_all_parking_spots(), st.get_all_parking_spots());
    assert_eq!(back.get_car_at_spot(ParkingSpot::Lot(0, 0)).unwrap().vehicle.id, 6);
    assert!(!back.is_free(ParkingSpot::Onstreet(3, 1)));
    assert!(back.is_free(ParkingSpot::Onstreet(3, 0)));
}

#[test]
fn snapshot_that_does_not_fit_is_refused() {
    let map = one_street(1);
    let snap = ParkingSnapshot {
        parked_cars: vec![parked(1, ParkingSpot::Onstreet(1, 0)), parked(2, ParkingSpot::Onstreet(1, 0))],
        reserved_spots: Vec::new(),
        events: Vec::new(),
    };
    assert!(ParkingSimState::restore(&map, &snap).is_none());
    let missing = ParkingSnapshot {
        parked_cars: Vec::new(),
        reserved_spots: vec![ParkingSpot::Lot(0, 0)],
        events: Vec::new(),
    };
    assert!(ParkingSimState::restore(&map, &missing).is_none());
}

#[test]
fn choose_turn_picks_turn_to_next_lane() {
    let map = chain(1);
    let path: VecDeque<usize> = vec![1, 2].into_iter().collect();
    assert_eq!(choose_turn(&path, &None, 0, &map), TurnID { src: 0, dst: 1 });
    assert_eq!(FOLLOWING_DISTANCE, 8_000);
}

#[test]
fn search_breaks_ties_by_smaller_lane() {
    // 0 -> 2 and 0 -> 1 at equal distance; both 1 and 2 have a curb slot.
    let mut a = lane(LaneType::Driving, 0);
    a.car_turns.push(turn(0, 2));
    a.car_turns.push(turn(0, 1));
    let map = RoadNetwork {
        lanes: vec![
            a,
            lane(LaneType::Driving, 1),
            lane(LaneType::Driving, 2),
            parking_lane(2, 2, 5, 1),
            parking_lane(1, 1, 5, 1),
            lane(LaneType::Sidewalk, 1),
        ],
        buildings: Vec::new(),
        lots: Vec::new(),
    };
    let st = ParkingSimState::new(&map);
    let (path, spot, _) = st.path_to_free_parking_spot(0, &car(1), 0, &map).unwrap();
    assert_eq!(path, vec![PathStep::Turn(TurnID { src: 0, dst: 1 }), PathStep::Lane(1)]);
    assert_eq!(spot, ParkingSpot::Onstreet(4, 0));
}

#[test]
fn zero_slot_lane_and_sidewalkless_lane_reported() {
    let mut map = one_street(0);
    map.lanes.push(parking_lane(0, 0, 2, 3));
    map.lanes[3].closest_sidewalk = None;
    let st = ParkingSimState::new(&map);
    assert!(!st.has_spot(ParkingSpot::Onstreet(1, 0)));
    assert!(!st.has_spot(ParkingSpot::Onstreet(3, 0)));
    assert!(st.get_all_free_spots(Position { lane: 0, dist_along: 0 }, &car(1), 0, &map).is_empty());
    assert_eq!(parking_lanes_without_sidewalk(&map), vec![3]);
}

#[test]
fn zero_slot_lane_keeps_its_geometry() {
    let map = one_street(0);
    let pl = ParkingLane::new(1, &map).unwrap();
    assert_eq!(pl.driving_lane, 0);
    assert_eq!(pl.sidewalk, 2);
    assert!(pl.spot_dist_along.is_empty());
    let geometry = ParkingLane::new(1, &one_street(2)).unwrap();
    assert_eq!(geometry.spot_dist_along, vec![16_000, 24_000]);
}

#[test]
fn parked_cars_listed_by_slot() {
    let mut map = garages();
    map.lanes.push(lane(LaneType::Driving, 1));
    map.lanes.push(parking_lane(1, 2, 1, 3));
    let mut st = ParkingSimState::new(&map);
    st.reserve_spot(ParkingSpot::Onstreet(3, 2));
    st.add_parked_car(parked(8, ParkingSpot::Onstreet(3, 2)));
    st.reserve_spot(ParkingSpot::Onstreet(3, 0));
    st.add_parked_car(parked(9, ParkingSpot::Onstreet(3, 0)));
    st.reserve_spot(ParkingSpot::Onstreet(3, 1));
    st.reserve_spot(ParkingSpot::Lot(0, 1));
    st.add_parked_car(parked(4, ParkingSpot::Lot(0, 1)));
    assert_eq!(st.get_parked_cars_onstreet(3), vec![9, 8]);
    assert_eq!(st.get_parked_cars_in_lot(0), vec![4]);
    assert!(st.get_parked_cars_onstreet(0).is_empty());
}

#[test]
fn all_spots_listed_by_kind_entity_and_slot() {
    let mut map = garages();
    map.lanes.push(lane(LaneType::Driving, 1));
    map.lanes.push(parking_lane(1, 2, 1, 2));
    let mut st = ParkingSimState::new(&map);
    st.reserve_spot(ParkingSpot::Lot(0, 1));
    st.reserve_spot(ParkingSpot::Onstreet(3, 1));
    let (filled, available) = st.get_all_parking_spots();
    assert_eq!(filled, vec![ParkingSpot::Onstreet(3, 1), ParkingSpot::Lot(0, 1)]);
    assert_eq!(
        available,
        vec![
            ParkingSpot::Onstreet(3, 0),
            ParkingSpot::Offstreet(0, 0),
            ParkingSpot::Offstreet(0, 1),
            ParkingSpot::Offstreet(1, 0),
            ParkingSpot::Lot(0, 0),
            ParkingSpot::Lot(0, 2),
        ]
    );
    assert_eq!(st.save().reserved_spots, vec![ParkingSpot::Onstreet(3, 1), ParkingSpot::Lot(0, 1)]);
}

#[test]
fn network_check_finds_unpaired_parking_lane() {
    assert!(one_street(2).check());
    let mut bad = one_street(2);
    bad.lanes[1].parking_to_driving = None;
    assert!(!bad.check());
    let mut far = one_street(2);
    far.lanes[0].car_turns.push(turn(0, 9));
    assert!(!far.check());
}
