//! Where spots are reached from, and which free spots lie ahead of a vehicle.
use vstd::prelude::*;
use crate::network::RoadNetwork;
use crate::parking::ParkingSimState;
use crate::parking_lane::ParkingLane;
use crate::parking_lane::{centered_front, slot_front};
use crate::queries::{entity_of, kind_of, lemma_push_fresh, make_spot, spot_of, slot_index, SpotKind};
use crate::setup::{feeds_lot, feeds_offstreet, feeds_onstreet};
use crate::types::{BuildingID, LaneID, ParkingSpot, Position, Vehicle, MAX_DIST, PARKING_SPOT_LENGTH};

verus! {

/// Where on its driving lane a car of length `len` reaches `spot`: for a
/// curb slot, the centered front bumper carried over to the driving lane;
/// for a garage or lot, its entrance.
pub open spec fn driving_pos_of(map: RoadNetwork, spot: ParkingSpot, len: u64) -> Position {
    match spot {
        ParkingSpot::Onstreet(l, i) => map.equiv_pos_spec(
            Position { lane: l, dist_along: centered_front(slot_front(i as int), len as int) as u64 },
            map.lanes@[l as int].parking_to_driving->Some_0,
            len,
        ),
        ParkingSpot::Offstreet(b, _) => map.buildings@[b as int].parking->Some_0.driving_pos,
        ParkingSpot::Lot(pl, _) => map.lots@[pl as int].driving_pos,
    }
}

/// Where pedestrians reach `spot`: for a curb slot, the middle of the slot
/// carried over to the sidewalk; for a garage or lot, its sidewalk position.
pub open spec fn sidewalk_pos_of(map: RoadNetwork, spot: ParkingSpot) -> Position {
    match spot {
        ParkingSpot::Onstreet(l, i) => map.equiv_pos_spec(
            Position { lane: l, dist_along: (slot_front(i as int) - PARKING_SPOT_LENGTH / 2) as u64 },
            map.lanes@[l as int].closest_sidewalk->Some_0,
            0,
        ),
        ParkingSpot::Offstreet(b, _) => map.buildings@[b as int].sidewalk_pos,
        ParkingSpot::Lot(pl, _) => map.lots@[pl as int].sidewalk_pos,
    }
}

/// Whether `spot` lies strictly ahead of a vehicle whose front is at `pos`:
/// a curb slot when the vehicle, carried over to the parking lane, is behind
/// where its front would sit in the slot; a garage or lot when its entrance
/// is beyond the vehicle.
pub open spec fn ahead_of(map: RoadNetwork, pos: Position, spot: ParkingSpot, len: u64) -> bool {
    match spot {
        ParkingSpot::Onstreet(l, i) => map.equiv_pos_spec(pos, l, pos.dist_along).dist_along
            < centered_front(slot_front(i as int), len as int),
        ParkingSpot::Offstreet(b, _) => pos.dist_along
            < map.buildings@[b as int].parking->Some_0.driving_pos.dist_along,
        ParkingSpot::Lot(pl, _) => pos.dist_along < map.lots@[pl as int].driving_pos.dist_along,
    }
}

/// Whether a trip bound for building `target` may use `spot`: a private
/// garage only serves its own building.
pub open spec fn visible_to(map: RoadNetwork, spot: ParkingSpot, target: BuildingID) -> bool {
    match spot {
        ParkingSpot::Offstreet(b, _) => map.buildings@[b as int].parking->Some_0.public_garage
            || b == target,
        _ => true,
    }
}

/// Whether the spot's lane, building or lot is reached from driving lane `d`.
pub open spec fn reached_from(map: RoadNetwork, d: LaneID, spot: ParkingSpot) -> bool {
    match spot {
        ParkingSpot::Onstreet(l, _) => feeds_onstreet(map, d, l),
        ParkingSpot::Offstreet(b, _) => feeds_offstreet(map, d, b),
        ParkingSpot::Lot(pl, _) => feeds_lot(map, d, pl),
    }
}

/// Whether `x` is among the first `j` items of `items`.
pub open spec fn in_prefix(items: Seq<usize>, j: int, x: usize) -> bool {
    exists|k: int| 0 <= k < j && items[k] == x
}

proof fn lemma_prefix_step(items: Seq<usize>, j: int)
    requires
        0 <= j < items.len(),
    ensures
        forall|x: usize| #[trigger] in_prefix(items, j + 1, x) == (in_prefix(items, j, x) || x == items[j]),
{
    assert forall|x: usize| #[trigger] in_prefix(items, j + 1, x) == (in_prefix(items, j, x) || x == items[j]) by {
        if in_prefix(items, j + 1, x) {
            let k = choose|k: int| 0 <= k < j + 1 && items[k] == x;
            if k < j {
                assert(in_prefix(items, j, x));
            }
        }
        if x == items[j] {
            assert(0 <= j < j + 1 && items[j] == x);
        }
        if in_prefix(items, j, x) {
            let k = choose|k: int| 0 <= k < j && items[k] == x;
            assert(0 <= k < j + 1 && items[k] == x);
        }
    }
}

proof fn lemma_prefix_full(items: Seq<usize>, x: usize)
    ensures
        in_prefix(items, items.len() as int, x) == items.contains(x),
{
    if items.contains(x) {
        let k = choose|k: int| 0 <= k < items.len() && items[k] == x;
        assert(0 <= k < items.len() && items[k] == x);
    }
}

proof fn lemma_prefix_fresh(items: Seq<usize>, j: int)
    requires
        0 <= j < items.len(),
        items.no_duplicates(),
    ensures
        !in_prefix(items, j, items[j]),
{
    if in_prefix(items, j, items[j]) {
        let k = choose|k: int| 0 <= k < j && items[k] == items[j];
        assert(items[k] != items[j]);
    }
}

impl ParkingSimState {
    /// Whether the enumerator offers `spot` to `vehicle` at `pos`, bound for
    /// building `target`.
    pub open spec fn offers(
        &self,
        map: RoadNetwork,
        pos: Position,
        vehicle: Vehicle,
        target: BuildingID,
        spot: ParkingSpot,
    ) -> bool {
        &&& self.spot_exists(spot)
        &&& self.is_free_spec(spot)
        &&& reached_from(map, pos.lane, spot)
        &&& visible_to(map, spot, target)
        &&& ahead_of(map, pos, spot, vehicle.length)
    }

    /// Where on its driving lane `vehicle` reaches `spot`.
    pub fn spot_to_driving_pos(&self, spot: ParkingSpot, vehicle: &Vehicle, map: &RoadNetwork) -> (r: Position)
        requires
            map.wf(),
            self.built_from(*map),
            self.spot_exists(spot),
            vehicle.wf(),
        ensures
            r == driving_pos_of(*map, spot, vehicle.length),
    {
        proof {
            self.lemma_spot_in_network(*map, spot);
        }
        match spot {
            ParkingSpot::Onstreet(l, i) => {
                match &self.onstreet_lanes[l] {
                    Some(pl) => {
                        proof {
                            assert(map.lane_wf(l as int));
                        }
                        let front = pl.dist_along_for_car(i, vehicle);
                        map.equiv_pos(Position::new(l, front), pl.driving_lane, vehicle.length)
                    },
                    None => {
                        proof {
                            assert(false);
                        }
                        Position::new(l, 0)
                    },
                }
            },
            ParkingSpot::Offstreet(b, _) => {
                match map.buildings[b].parking {
                    Some(p) => p.driving_pos,
                    None => {
                        proof {
                            assert(false);
                        }
                        Position::new(0, 0)
                    },
                }
            },
            ParkingSpot::Lot(pl, _) => map.lots[pl].driving_pos,
        }
    }

    /// Where pedestrians reach `spot`.
    pub fn spot_to_sidewalk_pos(&self, spot: ParkingSpot, map: &RoadNetwork) -> (r: Position)
        requires
            map.wf(),
            self.built_from(*map),
            self.spot_exists(spot),
        ensures
            r == sidewalk_pos_of(*map, spot),
    {
        proof {
            self.lemma_spot_in_network(*map, spot);
        }
        match spot {
            ParkingSpot::Onstreet(l, i) => {
                match &self.onstreet_lanes[l] {
                    Some(pl) => {
                        proof {
                            assert(map.lane_wf(l as int));
                            assert(pl.spot_dist_along@[i as int] == slot_front(i as int));
                        }
                        let middle = pl.spot_dist_along[i] - PARKING_SPOT_LENGTH / 2;
                        map.equiv_pos(Position::new(l, middle), pl.sidewalk, 0)
                    },
                    None => {
                        proof {
                            assert(false);
                        }
                        Position::new(l, 0)
                    },
                }
            },
            ParkingSpot::Offstreet(b, _) => map.buildings[b].sidewalk_pos,
            ParkingSpot::Lot(pl, _) => map.lots[pl].sidewalk_pos,
        }
    }

    /// Appends to `out` the free slots of curb lane `pl` in which `vehicle`'s
    /// front would sit beyond `parking_dist`.
    fn push_free_curb_slots(&self, pl: &ParkingLane, parking_dist: u64, vehicle: &Vehicle, out: &mut Vec<ParkingSpot>)
        requires
            pl.wf(),
            vehicle.wf(),
            old(out)@.no_duplicates(),
            forall|s: ParkingSpot| #[trigger] old(out)@.contains(s) ==> !(kind_of(s) == SpotKind::Onstreet && entity_of(s) == pl.parking_lane),
        ensures
            final(out)@.no_duplicates(),
            forall|s: ParkingSpot| #[trigger] final(out)@.contains(s) == (old(out)@.contains(s)
                || (kind_of(s) == SpotKind::Onstreet && entity_of(s) == pl.parking_lane && slot_index(s) < pl.num_spots()
                    && self.is_free_spec(s) && parking_dist < centered_front(slot_front(slot_index(s) as int), vehicle.length as int))),
    {
        let n = pl.spot_dist_along.len();
        let mut i: usize = 0;
        while i < n
            invariant
                pl.wf(),
                vehicle.wf(),
                n == pl.num_spots(),
                i <= n,
                forall|s: ParkingSpot| #[trigger] old(out)@.contains(s) ==> !(kind_of(s) == SpotKind::Onstreet && entity_of(s) == pl.parking_lane),
                out@.no_duplicates(),
                forall|s: ParkingSpot| #[trigger] out@.contains(s) == (old(out)@.contains(s)
                    || (kind_of(s) == SpotKind::Onstreet && entity_of(s) == pl.parking_lane && slot_index(s) < i
                        && self.is_free_spec(s) && parking_dist < centered_front(slot_front(slot_index(s) as int), vehicle.length as int))),
            decreases n - i,
        {
            let spot = ParkingSpot::Onstreet(pl.parking_lane, i);
            proof {
                assert(!old(out)@.contains(spot));
            }
            if self.is_free(spot) && parking_dist < pl.dist_along_for_car(i, vehicle) {
                let ghost before = out@;
                out.push(spot);
                proof {
                    lemma_push_fresh(before, out@, spot);
                }
            }
            i = i + 1;
        }
    }

    /// Every free spot offered to `vehicle`, whose front is at `driving_pos`
    /// on a driving lane and whose trip is bound for building `target`, each
    /// with the position on its driving lane from which it is reached.
    pub fn get_all_free_spots(
        &self,
        driving_pos: Position,
        vehicle: &Vehicle,
        target: BuildingID,
        map: &RoadNetwork,
    ) -> (r: Vec<(ParkingSpot, Position)>)
        requires
            map.wf(),
            self.built_from(*map),
            map.valid_pos(driving_pos),
            vehicle.wf(),
        ensures
            forall|k: int|
                0 <= k < r@.len() ==> {
                    &&& self.offers(*map, driving_pos, *vehicle, target, #[trigger] r@[k].0)
                    &&& r@[k].1 == driving_pos_of(*map, r@[k].0, vehicle.length)
                },
            forall|s: ParkingSpot|
                #[trigger] self.offers(*map, driving_pos, *vehicle, target, s) ==> exists|k: int|
                    0 <= k < r@.len() && r@[k].0 == s,
            forall|k1: int, k2: int|
                0 <= k1 < r@.len() && 0 <= k2 < r@.len() && k1 != k2 ==> r@[k1].0 != r@[k2].0,
            forall|k: int|
                0 <= k < r@.len() ==> ahead_of(*map, driving_pos, #[trigger] r@[k].0, vehicle.length),
            forall|k: int|
                0 <= k < r@.len() ==> (#[trigger] r@[k].0 matches ParkingSpot::Offstreet(b, _)
                    ==> map.buildings@[b as int].parking->Some_0.public_garage || b == target),
    {
        let d = driving_pos.lane;
        let mut cands: Vec<ParkingSpot> = Vec::new();
        proof {
            assert(self.driving_to_parking_lanes@[d as int]@.no_duplicates());
        }
        let lanes = &self.driving_to_parking_lanes[d];
        let mut j: usize = 0;
        while j < lanes.len()
            invariant
                map.wf(),
                self.built_from(*map),
                map.valid_pos(driving_pos),
                vehicle.wf(),
                d == driving_pos.lane,
                lanes == &self.driving_to_parking_lanes@[d as int],
                lanes@.no_duplicates(),
                j <= lanes@.len(),
                cands@.no_duplicates(),
                forall|s: ParkingSpot| #[trigger] cands@.contains(s) == (kind_of(s) == SpotKind::Onstreet
                    && in_prefix(lanes@, j as int, entity_of(s)) && self.offers(*map, driving_pos, *vehicle, target, s)),
            decreases lanes@.len() - j,
        {
            let l = lanes[j];
            proof {
                assert(lanes@.contains(l));
                assert(feeds_onstreet(*map, d, l));
                assert(self.onstreet_lanes@[l as int] is Some == crate::setup::has_curb_parking(*map, l));
                lemma_prefix_fresh(lanes@, j as int);
                lemma_prefix_step(lanes@, j as int);
            }
            let parking_dist = map.equiv_pos(driving_pos, l, driving_pos.dist_along).dist_along;
            match &self.onstreet_lanes[l] {
                Some(pl) => {
                    self.push_free_curb_slots(pl, parking_dist, vehicle, &mut cands);
                    proof {
                        assert forall|s: ParkingSpot| #[trigger] cands@.contains(s) == (kind_of(s) == SpotKind::Onstreet
                            && in_prefix(lanes@, j + 1, entity_of(s)) && self.offers(*map, driving_pos, *vehicle, target, s)) by {
                            if kind_of(s) == SpotKind::Onstreet && entity_of(s) == l {
                                self.lemma_spot_in_network(*map, s);
                            }
                        }
                    }
                },
                None => {
                    proof {
                        assert(false);
                    }
                },
            }
            j = j + 1;
        }
        proof {
            assert forall|s: ParkingSpot| #[trigger] cands@.contains(s) == (kind_of(s) == SpotKind::Onstreet
                && self.offers(*map, driving_pos, *vehicle, target, s)) by {
                lemma_prefix_full(lanes@, entity_of(s));
            }
            assert(self.driving_to_offstreet@[d as int]@.no_duplicates());
        }
        let bldgs = &self.driving_to_offstreet[d];
        let mut j: usize = 0;
        while j < bldgs.len()
            invariant
                map.wf(),
                self.built_from(*map),
                map.valid_pos(driving_pos),
                vehicle.wf(),
                d == driving_pos.lane,
                bldgs == &self.driving_to_offstreet@[d as int],
                bldgs@.no_duplicates(),
                j <= bldgs@.len(),
                cands@.no_duplicates(),
                forall|s: ParkingSpot| #[trigger] cands@.contains(s) == (self.offers(*map, driving_pos, *vehicle, target, s)
                    && (kind_of(s) == SpotKind::Onstreet || (kind_of(s) == SpotKind::Offstreet
                    && in_prefix(bldgs@, j as int, entity_of(s))))),
            decreases bldgs@.len() - j,
        {
            let b = bldgs[j];
            proof {
                assert(bldgs@.contains(b));
                assert(self.driving_to_parking_lanes@[d as int]@.no_duplicates());
                assert(feeds_offstreet(*map, d, b));
                assert(map.building_wf(b as int));
                lemma_prefix_fresh(bldgs@, j as int);
                lemma_prefix_step(bldgs@, j as int);
            }
            let parking = map.buildings[b].parking.unwrap();
            if (parking.public_garage || target == b) && driving_pos.dist_along < parking.driving_pos.dist_along {
                self.push_slots(SpotKind::Offstreet, b, true, &mut cands);
            }
            proof {
                assert forall|s: ParkingSpot| #[trigger] cands@.contains(s) == (self.offers(*map, driving_pos, *vehicle, target, s)
                    && (kind_of(s) == SpotKind::Onstreet || (kind_of(s) == SpotKind::Offstreet
                    && in_prefix(bldgs@, j + 1, entity_of(s))))) by {
                    if kind_of(s) == SpotKind::Offstreet && entity_of(s) == b {
                        self.lemma_spot_in_network(*map, s);
                    }
                }
            }
            j = j + 1;
        }
        proof {
            assert forall|s: ParkingSpot| #[trigger] cands@.contains(s) == (self.offers(*map, driving_pos, *vehicle, target, s)
                && kind_of(s) != SpotKind::Lot) by {
                lemma_prefix_full(bldgs@, entity_of(s));
            }
            assert(self.driving_to_lots@[d as int]@.no_duplicates());
        }
        let lots = &self.driving_to_lots[d];
        let mut j: usize = 0;
        while j < lots.len()
            invariant
                map.wf(),
                self.built_from(*map),
                map.valid_pos(driving_pos),
                vehicle.wf(),
                d == driving_pos.lane,
                lots == &self.driving_to_lots@[d as int],
                lots@.no_duplicates(),
                j <= lots@.len(),
                cands@.no_duplicates(),
                forall|s: ParkingSpot| #[trigger] cands@.contains(s) == (self.offers(*map, driving_pos, *vehicle, target, s)
                    && (kind_of(s) != SpotKind::Lot || in_prefix(lots@, j as int, entity_of(s)))),
            decreases lots@.len() - j,
        {
            let pl = lots[j];
            proof {
                assert(lots@.contains(pl));
                assert(self.driving_to_parking_lanes@[d as int]@.no_duplicates());
                assert(feeds_lot(*map, d, pl));
                assert(map.lot_wf(pl as int));
                lemma_prefix_fresh(lots@, j as int);
                lemma_prefix_step(lots@, j as int);
            }
            if driving_pos.dist_along < map.lots[pl].driving_pos.dist_along {
                self.push_slots(SpotKind::Lot, pl, true, &mut cands);
            }
            proof {
                assert forall|s: ParkingSpot| #[trigger] cands@.contains(s) == (self.offers(*map, driving_pos, *vehicle, target, s)
                    && (kind_of(s) != SpotKind::Lot || in_prefix(lots@, j + 1, entity_of(s)))) by {
                    if kind_of(s) == SpotKind::Lot && entity_of(s) == pl {
                        self.lemma_spot_in_network(*map, s);
                    }
                }
            }
            j = j + 1;
        }
        proof {
            assert forall|s: ParkingSpot| #[trigger] cands@.contains(s) == self.offers(*map, driving_pos, *vehicle, target, s) by {
                lemma_prefix_full(lots@, entity_of(s));
            }
        }
        let mut r: Vec<(ParkingSpot, Position)> = Vec::new();
        let mut k: usize = 0;
        while k < cands.len()
            invariant
                map.wf(),
                self.built_from(*map),
                vehicle.wf(),
                k <= cands@.len(),
                r@.len() == k,
                forall|s: ParkingSpot| #[trigger] cands@.contains(s) == self.offers(*map, driving_pos, *vehicle, target, s),
                forall|i: int| 0 <= i < k ==> (#[trigger] r@[i]).0 == cands@[i]
                    && r@[i].1 == driving_pos_of(*map, cands@[i], vehicle.length),
            decreases cands@.len() - k,
        {
            let spot = cands[k];
            proof {
                assert(cands@.contains(spot));
            }
            let pos = self.spot_to_driving_pos(spot, vehicle, map);
            r.push((spot, pos));
            k = k + 1;
        }
        proof {
            assert forall|i: int| 0 <= i < r@.len() implies self.offers(*map, driving_pos, *vehicle, target, #[trigger] r@[i].0) by {
                assert(cands@.contains(cands@[i]));
            }
            assert forall|s: ParkingSpot| #[trigger] self.offers(*map, driving_pos, *vehicle, target, s) implies exists|i: int|
                0 <= i < r@.len() && r@[i].0 == s by {
                assert(cands@.contains(s));
                let i = choose|i: int| 0 <= i < cands@.len() && cands@[i] == s;
                assert(r@[i].0 == s);
            }
            assert forall|k1: int, k2: int| 0 <= k1 < r@.len() && 0 <= k2 < r@.len() && k1 != k2 implies r@[k1].0 != r@[k2].0 by {
                assert(r@[k1].0 == cands@[k1] && r@[k2].0 == cands@[k2]);
            }
        }
        r
    }
}

} // verus!
