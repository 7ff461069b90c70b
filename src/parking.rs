//! The parking store: which spots exist, which are reserved, which are
//! occupied and by whom.
use vstd::prelude::*;
use crate::network::RoadNetwork;
use crate::parking_lane::ParkingLane;
use crate::types::{BuildingID, CarID, Event, LaneID, ParkedCar, ParkingLotID, ParkingSpot, PersonID};

verus! {

/// What a single existing spot currently holds.
#[derive(Clone, Copy, Debug, PartialEq, Eq, Structural)]
pub enum SpotState {
    Free,
    Reserved,
    Occupied(CarID),
}

/// State of slot `i` of entity `e` in a table of per-entity slot rows.
pub open spec fn slot_of(rows: Seq<Vec<SpotState>>, e: usize, i: usize) -> Option<SpotState> {
    if e < rows.len() && i < rows[e as int]@.len() {
        Some(rows[e as int]@[i as int])
    } else {
        None
    }
}

/// The parking store of a simulation run.
///
/// Every existing spot has one slot, which is free, reserved or occupied, so
/// a spot is never both reserved and occupied. Entities are named by their
/// index in the road network that the store was built from.
pub struct ParkingSimState {
    /// Parked cars in the order they arrived.
    pub(crate) parked_cars: Vec<ParkedCar>,
    /// The same cars, keyed by vehicle.
    pub(crate) parked_map: Ghost<Map<CarID, ParkedCar>>,
    /// Slot geometry of each lane that has curb parking, by lane.
    pub(crate) onstreet_lanes: Vec<Option<ParkingLane>>,
    /// Slot states of each parking lane, by lane (empty for other lanes).
    pub(crate) onstreet_slots: Vec<Vec<SpotState>>,
    /// Parking lanes feeding each driving lane, by driving lane.
    pub(crate) driving_to_parking_lanes: Vec<Vec<LaneID>>,
    /// Slot states of each building garage, by building.
    pub(crate) offstreet_slots: Vec<Vec<SpotState>>,
    /// Buildings entered from each driving lane, by driving lane.
    pub(crate) driving_to_offstreet: Vec<Vec<BuildingID>>,
    /// Slot states of each parking lot, by lot.
    pub(crate) lot_slots: Vec<Vec<SpotState>>,
    /// Lots entered from each driving lane, by driving lane.
    pub(crate) driving_to_lots: Vec<Vec<ParkingLotID>>,
    pub(crate) events: Vec<Event>,
}

impl ParkingSimState {
    /// The state of `spot`, or `None` when the store has no such spot.
    pub open(crate) spec fn status(&self, spot: ParkingSpot) -> Option<SpotState> {
        match spot {
            ParkingSpot::Onstreet(l, i) => slot_of(self.onstreet_slots@, l, i),
            ParkingSpot::Offstreet(b, i) => slot_of(self.offstreet_slots@, b, i),
            ParkingSpot::Lot(pl, i) => slot_of(self.lot_slots@, pl, i),
        }
    }

    /// Whether `spot` is one of the store's spots.
    pub open spec fn spot_exists(&self, spot: ParkingSpot) -> bool {
        self.status(spot) is Some
    }

    /// Occupied spots and the vehicle in each.
    pub open spec fn occupants(&self) -> Map<ParkingSpot, CarID> {
        Map::new(
            |s: ParkingSpot| self.status(s) matches Some(SpotState::Occupied(_)),
            |s: ParkingSpot| self.status(s)->Some_0->Occupied_0,
        )
    }

    /// Spots claimed for a vehicle that has not arrived yet.
    pub open spec fn reserved_spots(&self) -> Set<ParkingSpot> {
        Set::new(|s: ParkingSpot| self.status(s) == Some(SpotState::Reserved))
    }

    /// Parked cars, keyed by vehicle.
    pub open(crate) spec fn parked(&self) -> Map<CarID, ParkedCar> {
        self.parked_map@
    }

    /// Events not collected yet, oldest first.
    pub open(crate) spec fn pending_events(&self) -> Seq<Event> {
        self.events@
    }

    pub open spec fn is_free_spec(&self, spot: ParkingSpot) -> bool {
        !self.occupants().dom().contains(spot) && !self.reserved_spots().contains(spot)
    }

    pub open(crate) spec fn parked_seq(&self) -> Seq<ParkedCar> {
        self.parked_cars@
    }

    pub open(crate) spec fn parked_wf(&self) -> bool {
        let v = self.parked_cars@;
        let m = self.parked_map@;
        &&& forall|i: int|
            0 <= i < v.len() ==> m.contains_key(#[trigger] v[i].vehicle.id) && m[v[i].vehicle.id]
                == v[i]
        &&& forall|c: CarID| m.contains_key(c) ==> exists|i: int| 0 <= i < v.len() && #[trigger] v[i].vehicle.id == c
        &&& forall|i: int, j: int|
            0 <= i < v.len() && 0 <= j < v.len() && i != j ==> v[i].vehicle.id != v[j].vehicle.id
        &&& forall|c: CarID|
            #[trigger] m.contains_key(c) ==> m[c].vehicle.id == c && self.status(m[c].spot) == Some(
                SpotState::Occupied(c),
            )
        &&& forall|s: ParkingSpot|
            #[trigger] self.status(s) matches Some(SpotState::Occupied(c)) ==> m.contains_key(c)
                && m[c].spot == s
    }

    /// The store's internal invariant.
    pub open(crate) spec fn wf(&self) -> bool {
        self.parked_wf()
    }

    /// Everything but the slot states, the parked cars and the events.
    pub open(crate) spec fn same_indexes(&self, other: &ParkingSimState) -> bool {
        &&& self.onstreet_lanes@ == other.onstreet_lanes@
        &&& self.driving_to_parking_lanes@ == other.driving_to_parking_lanes@
        &&& self.driving_to_offstreet@ == other.driving_to_offstreet@
        &&& self.driving_to_lots@ == other.driving_to_lots@
        &&& self.onstreet_slots@.len() == other.onstreet_slots@.len()
        &&& self.offstreet_slots@.len() == other.offstreet_slots@.len()
        &&& self.lot_slots@.len() == other.lot_slots@.len()
        &&& forall|l: int|
            0 <= l < self.onstreet_slots@.len() ==> #[trigger] self.onstreet_slots@[l]@.len()
                == other.onstreet_slots@[l]@.len()
        &&& forall|b: int|
            0 <= b < self.offstreet_slots@.len() ==> #[trigger] self.offstreet_slots@[b]@.len()
                == other.offstreet_slots@[b]@.len()
        &&& forall|pl: int|
            0 <= pl < self.lot_slots@.len() ==> #[trigger] self.lot_slots@[pl]@.len()
                == other.lot_slots@[pl]@.len()
    }

    pub(crate) fn spot_status(&self, spot: ParkingSpot) -> (r: Option<SpotState>)
        ensures
            r == self.status(spot),
    {
        let (rows, e, i) = match spot {
            ParkingSpot::Onstreet(l, i) => (&self.onstreet_slots, l, i),
            ParkingSpot::Offstreet(b, i) => (&self.offstreet_slots, b, i),
            ParkingSpot::Lot(pl, i) => (&self.lot_slots, pl, i),
        };
        if e < rows.len() && i < rows[e].len() {
            Some(rows[e][i])
        } else {
            None
        }
    }

    /// Whether `spot` is one of the store's spots.
    pub fn has_spot(&self, spot: ParkingSpot) -> (r: bool)
        ensures
            r == self.spot_exists(spot),
    {
        self.spot_status(spot).is_some()
    }

    fn set_status(&mut self, spot: ParkingSpot, st: SpotState)
        requires
            old(self).spot_exists(spot),
        ensures
            forall|s: ParkingSpot|
                #[trigger] final(self).status(s) == if s == spot {
                    Some(st)
                } else {
                    old(self).status(s)
                },
            final(self).same_indexes(old(self)),
            final(self).parked_cars@ == old(self).parked_cars@,
            final(self).parked_map == old(self).parked_map,
            final(self).events@ == old(self).events@,
    {
        match spot {
            ParkingSpot::Onstreet(l, i) => { self.onstreet_slots[l].set(i, st); },
            ParkingSpot::Offstreet(b, i) => { self.offstreet_slots[b].set(i, st); },
            ParkingSpot::Lot(pl, i) => { self.lot_slots[pl].set(i, st); },
        }
        assert forall|s: ParkingSpot| #[trigger] self.status(s) == if s == spot {
            Some(st)
        } else {
            old(self).status(s)
        } by {
            match s {
                ParkingSpot::Onstreet(l, i) => {},
                ParkingSpot::Offstreet(b, i) => {},
                ParkingSpot::Lot(pl, i) => {},
            }
        }
    }

    /// Whether `spot` is neither occupied nor reserved.
    pub fn is_free(&self, spot: ParkingSpot) -> (r: bool)
        ensures
            r == (!self.occupants().dom().contains(spot) && !self.reserved_spots().contains(spot)),
    {
        match self.spot_status(spot) {
            Some(SpotState::Occupied(_)) => false,
            Some(SpotState::Reserved) => false,
            _ => true,
        }
    }

    /// Claims a free spot for a vehicle on its way to it.
    pub fn reserve_spot(&mut self, spot: ParkingSpot)
        requires
            old(self).wf(),
            old(self).spot_exists(spot),
            old(self).is_free_spec(spot),
        ensures
            final(self).wf(),
            forall|map: RoadNetwork| #[trigger] old(self).built_from(map) ==> final(self).built_from(map),
            forall|s: ParkingSpot| #[trigger] final(self).spot_exists(s) == old(self).spot_exists(s),
            final(self).same_indexes(old(self)),
            final(self).reserved_spots() == old(self).reserved_spots().insert(spot),
            final(self).occupants() == old(self).occupants(),
            final(self).parked_seq() == old(self).parked_seq(),
            final(self).parked() == old(self).parked(),
            final(self).pending_events() == old(self).pending_events(),
    {
        self.set_status(spot, SpotState::Reserved);
        assert(self.reserved_spots() =~= old(self).reserved_spots().insert(spot));
        assert(self.occupants() =~= old(self).occupants());
        assert(self.parked_wf());
    }

    /// Commits the arrival of a car at the spot reserved for it.
    pub fn add_parked_car(&mut self, p: ParkedCar)
        requires
            old(self).wf(),
            old(self).reserved_spots().contains(p.spot),
            !old(self).parked().contains_key(p.vehicle.id),
        ensures
            final(self).wf(),
            forall|map: RoadNetwork| #[trigger] old(self).built_from(map) ==> final(self).built_from(map),
            forall|s: ParkingSpot| #[trigger] final(self).spot_exists(s) == old(self).spot_exists(s),
            final(self).same_indexes(old(self)),
            final(self).reserved_spots() == old(self).reserved_spots().remove(p.spot),
            final(self).occupants() == old(self).occupants().insert(p.spot, p.vehicle.id),
            final(self).parked_seq() == old(self).parked_seq().push(p),
            final(self).parked() == old(self).parked().insert(p.vehicle.id, p),
            final(self).pending_events() == old(self).pending_events().push(
                Event::CarReachedParkingSpot(p.vehicle.id, p.spot),
            ),
    {
        self.events.push(Event::CarReachedParkingSpot(p.vehicle.id, p.spot));
        self.parked_cars.push(p);
        self.parked_map = Ghost(self.parked_map@.insert(p.vehicle.id, p));
        self.set_status(p.spot, SpotState::Occupied(p.vehicle.id));
        assert(self.reserved_spots() =~= old(self).reserved_spots().remove(p.spot));
        assert(self.occupants() =~= old(self).occupants().insert(p.spot, p.vehicle.id));
        let ghost v = self.parked_cars@;
        let ghost m = self.parked_map@;
        assert forall|c: CarID| m.contains_key(c) implies exists|i: int|
            0 <= i < v.len() && #[trigger] v[i].vehicle.id == c by {
            if c != p.vehicle.id {
                let i = choose|i: int| 0 <= i < old(self).parked_cars@.len() && #[trigger] old(self).parked_cars@[i].vehicle.id == c;
                assert(v[i].vehicle.id == c);
            } else {
                assert(v[v.len() - 1].vehicle.id == c);
            }
        }
        assert forall|i: int, j: int|
            0 <= i < v.len() && 0 <= j < v.len() && i != j implies v[i].vehicle.id
                != v[j].vehicle.id by {
            if i == v.len() - 1 {
                assert(old(self).parked_map@.contains_key(v[j].vehicle.id));
            } else if j == v.len() - 1 {
                assert(old(self).parked_map@.contains_key(v[i].vehicle.id));
            }
        }
        assert forall|c: CarID| #[trigger] m.contains_key(c) implies m[c].vehicle.id == c
            && self.status(m[c].spot) == Some(SpotState::Occupied(c)) by {
            if c != p.vehicle.id {
                assert(old(self).status(m[c].spot) == Some(SpotState::Occupied(c)));
            }
        }
        assert forall|s: ParkingSpot|
            #[trigger] self.status(s) matches Some(SpotState::Occupied(_)) implies m.contains_key(
                self.status(s)->Some_0->Occupied_0,
            ) && m[self.status(s)->Some_0->Occupied_0].spot == s by {
            if s != p.spot {
                assert(old(self).status(s) == self.status(s));
            }
        }
        assert(self.parked_wf());
    }

    /// Removes a parked car from its spot, which becomes free.
    pub fn remove_parked_car(&mut self, p: ParkedCar)
        requires
            old(self).wf(),
            old(self).parked().contains_key(p.vehicle.id),
            old(self).parked()[p.vehicle.id].spot == p.spot,
        ensures
            final(self).wf(),
            forall|map: RoadNetwork| #[trigger] old(self).built_from(map) ==> final(self).built_from(map),
            forall|s: ParkingSpot| #[trigger] final(self).spot_exists(s) == old(self).spot_exists(s),
            final(self).same_indexes(old(self)),
            final(self).reserved_spots() == old(self).reserved_spots(),
            final(self).occupants() == old(self).occupants().remove(p.spot),
            final(self).parked() == old(self).parked().remove(p.vehicle.id),
            final(self).pending_events() == old(self).pending_events().push(
                Event::CarLeftParkingSpot(p.vehicle.id, p.spot),
            ),
    {
        let id = p.vehicle.id;
        let ghost v0 = self.parked_cars@;
        let mut k: usize = 0;
        while k < self.parked_cars.len() && self.parked_cars[k].vehicle.id != id
            invariant
                self.parked_cars@ == v0,
                k <= v0.len(),
                forall|j: int| 0 <= j < k ==> #[trigger] v0[j].vehicle.id != id,
            decreases v0.len() - k,
        {
            k = k + 1;
        }
        assert(k < v0.len()) by {
            if k >= v0.len() {
                let j = choose|j: int| 0 <= j < v0.len() && #[trigger] v0[j].vehicle.id == id;
                assert(v0[j].vehicle.id != id);
            }
        }
        assert(v0[k as int].vehicle.id == id);
        self.parked_cars.remove(k);
        self.parked_map = Ghost(self.parked_map@.remove(id));
        self.events.push(Event::CarLeftParkingSpot(id, p.spot));
        self.set_status(p.spot, SpotState::Free);
        assert(self.reserved_spots() =~= old(self).reserved_spots());
        assert(self.occupants() =~= old(self).occupants().remove(p.spot));
        let ghost v = self.parked_cars@;
        let ghost m = self.parked_map@;
        assert forall|c: CarID| m.contains_key(c) implies exists|i: int|
            0 <= i < v.len() && #[trigger] v[i].vehicle.id == c by {
            let i = choose|i: int| 0 <= i < v0.len() && #[trigger] v0[i].vehicle.id == c;
            if i < k {
                assert(v[i].vehicle.id == c);
            } else {
                assert(v[i - 1].vehicle.id == c);
            }
        }
        assert forall|i: int, j: int|
            0 <= i < v.len() && 0 <= j < v.len() && i != j implies v[i].vehicle.id
                != v[j].vehicle.id by {
            let i0 = if i < k { i } else { i + 1 };
            let j0 = if j < k { j } else { j + 1 };
            assert(v[i] == v0[i0] && v[j] == v0[j0]);
        }
        assert forall|i: int| 0 <= i < v.len() implies m.contains_key(#[trigger] v[i].vehicle.id)
            && m[v[i].vehicle.id] == v[i] by {
            let i0 = if i < k { i } else { i + 1 };
            assert(v[i] == v0[i0]);
        }
        assert forall|c: CarID| #[trigger] m.contains_key(c) implies m[c].vehicle.id == c
            && self.status(m[c].spot) == Some(SpotState::Occupied(c)) by {
            assert(old(self).status(m[c].spot) == Some(SpotState::Occupied(c)));
            assert(old(self).parked_map@[id].spot == p.spot);
        }
        assert forall|s: ParkingSpot|
            #[trigger] self.status(s) matches Some(SpotState::Occupied(_)) implies m.contains_key(
                self.status(s)->Some_0->Occupied_0,
            ) && m[self.status(s)->Some_0->Occupied_0].spot == s by {
            assert(old(self).status(s) == self.status(s));
        }
        assert forall|map: RoadNetwork| #[trigger] old(self).built_from(map) implies self.built_from(map) by {
            self.lemma_same_indexes_built_from(old(self), map);
        }
        assert(self.parked_wf());
    }

    /// Hands out the buffered events and empties the buffer.
    pub fn collect_events(&mut self) -> (r: Vec<Event>)
        requires
            old(self).wf(),
        ensures
            r@ == old(self).pending_events(),
            final(self).pending_events() == Seq::<Event>::empty(),
            final(self).wf(),
            forall|map: RoadNetwork| #[trigger] old(self).built_from(map) ==> final(self).built_from(map),
            final(self).same_indexes(old(self)),
            final(self).reserved_spots() == old(self).reserved_spots(),
            final(self).occupants() == old(self).occupants(),
            final(self).parked() == old(self).parked(),
    {
        let mut out: Vec<Event> = Vec::new();
        std::mem::swap(&mut self.events, &mut out);
        assert forall|s: ParkingSpot| #[trigger] self.status(s) == old(self).status(s) by {}
        assert(self.parked_wf());
        assert(self.reserved_spots() =~= old(self).reserved_spots());
        assert(self.occupants() =~= old(self).occupants());
        out
    }

    /// The parked car with vehicle `id`, if any.
    pub fn lookup_parked_car(&self, id: CarID) -> (r: Option<&ParkedCar>)
        requires
            self.wf(),
        ensures
            r is Some == self.parked().contains_key(id),
            r matches Some(p) ==> *p == self.parked()[id],
    {
        let mut k: usize = 0;
        while k < self.parked_cars.len()
            invariant
                self.wf(),
                k <= self.parked_cars@.len(),
                forall|j: int| 0 <= j < k ==> #[trigger] self.parked_cars@[j].vehicle.id != id,
            decreases self.parked_cars@.len() - k,
        {
            if self.parked_cars[k].vehicle.id == id {
                return Some(&self.parked_cars[k]);
            }
            k = k + 1;
        }
        proof {
            if self.parked().contains_key(id) {
                let j = choose|j: int| 0 <= j < self.parked_cars@.len() && #[trigger] self.parked_cars@[j].vehicle.id == id;
                assert(self.parked_cars@[j].vehicle.id != id);
            }
        }
        None
    }

    /// The car occupying `spot`, if any.
    pub fn get_car_at_spot(&self, spot: ParkingSpot) -> (r: Option<&ParkedCar>)
        requires
            self.wf(),
        ensures
            r is Some == self.occupants().dom().contains(spot),
            r matches Some(p) ==> *p == self.parked()[self.occupants()[spot]],
    {
        match self.spot_status(spot) {
            Some(SpotState::Occupied(c)) => self.lookup_parked_car(c),
            _ => None,
        }
    }

    /// The owner of parked vehicle `id`, if the vehicle is parked and owned.
    pub fn get_owner_of_car(&self, id: CarID) -> (r: Option<PersonID>)
        requires
            self.wf(),
        ensures
            r == (if self.parked().contains_key(id) {
                self.parked()[id].vehicle.owner
            } else {
                None
            }),
    {
        match self.lookup_parked_car(id) {
            Some(p) => p.vehicle.owner,
            None => None,
        }
    }

    /// Replaces the buffered events.
    pub(crate) fn replace_events(&mut self, events: Vec<Event>)
        requires
            old(self).wf(),
        ensures
            final(self).wf(),
            final(self).pending_events() == events@,
            forall|map: RoadNetwork| #[trigger] old(self).built_from(map) ==> final(self).built_from(map),
            final(self).reserved_spots() == old(self).reserved_spots(),
            final(self).occupants() == old(self).occupants(),
            final(self).parked_seq() == old(self).parked_seq(),
            final(self).parked() == old(self).parked(),
    {
        self.events = events;
        assert forall|s: ParkingSpot| #[trigger] self.status(s) == old(self).status(s) by {}
        assert(self.reserved_spots() =~= old(self).reserved_spots());
        assert(self.occupants() =~= old(self).occupants());
        assert(self.parked_wf());
    }
}

} // verus!
