//! Saving the changing part of a store as plain values, and resuming from it.
use vstd::prelude::*;
use crate::network::RoadNetwork;
use crate::parking::{ParkingSimState, SpotState};
use crate::queries::{in_listing_order, spot_before};
use crate::setup::network_spot;
use crate::types::{CarID, Event, ParkedCar, ParkingSpot};

verus! {

/// The changing part of a parking store: parked cars in arrival order,
/// reserved spots in listing order, and events not collected yet.
///
/// The spot tables and lane indexes are not part of it: they follow from the
/// road network, and resuming rebuilds them from the network it is given.
/// Resuming on another network than the one the store was built from is not
/// detected, beyond refusing spots that network lacks.
#[derive(Clone, Debug, PartialEq, Eq)]
pub struct ParkingSnapshot {
    pub parked_cars: Vec<ParkedCar>,
    pub reserved_spots: Vec<ParkingSpot>,
    pub events: Vec<Event>,
}

/// The cars of a list, keyed by vehicle.
pub open spec fn cars_of(cars: Seq<ParkedCar>) -> Map<CarID, ParkedCar> {
    Map::new(
        |c: CarID| exists|i: int| 0 <= i < cars.len() && #[trigger] cars[i].vehicle.id == c,
        |c: CarID| cars[choose|i: int| 0 <= i < cars.len() && #[trigger] cars[i].vehicle.id == c],
    )
}

/// No two cars of the list are the same vehicle.
pub open spec fn unique_vehicles(cars: Seq<ParkedCar>) -> bool {
    forall|i: int, j: int|
        0 <= i < cars.len() && 0 <= j < cars.len() && i != j ==> cars[i].vehicle.id != cars[j].vehicle.id
}

/// Spots occupied by the cars of a map, and by which vehicle.
pub open spec fn occupants_of(parked: Map<CarID, ParkedCar>) -> Map<ParkingSpot, CarID> {
    Map::new(
        |s: ParkingSpot| exists|c: CarID| parked.contains_key(c) && #[trigger] parked[c].spot == s,
        |s: ParkingSpot| choose|c: CarID| parked.contains_key(c) && #[trigger] parked[c].spot == s,
    )
}

/// Whether a snapshot can be resumed on `map`: every spot it names exists,
/// no spot or vehicle appears twice, and no reserved spot is occupied.
pub open spec fn snapshot_fits(map: RoadNetwork, snap: ParkingSnapshot) -> bool {
    let cars = snap.parked_cars@;
    let reserved = snap.reserved_spots@;
    &&& forall|k: int| 0 <= k < reserved.len() ==> network_spot(map, #[trigger] reserved[k])
    &&& reserved.no_duplicates()
    &&& forall|k: int| 0 <= k < cars.len() ==> network_spot(map, (#[trigger] cars[k]).spot)
    &&& unique_vehicles(cars)
    &&& forall|i: int, j: int| 0 <= i < cars.len() && 0 <= j < cars.len() && i != j ==> cars[i].spot != cars[j].spot
    &&& forall|k: int| 0 <= k < cars.len() ==> !reserved.contains((#[trigger] cars[k]).spot)
}

proof fn lemma_cars_of_push(cars: Seq<ParkedCar>, p: ParkedCar)
    requires
        unique_vehicles(cars),
        !cars_of(cars).contains_key(p.vehicle.id),
    ensures
        unique_vehicles(cars.push(p)),
        cars_of(cars.push(p)) == cars_of(cars).insert(p.vehicle.id, p),
{
    let now = cars.push(p);
    assert forall|i: int| 0 <= i < cars.len() implies #[trigger] cars[i].vehicle.id != p.vehicle.id by {
        assert(cars_of(cars).dom().contains(cars[i].vehicle.id));
    }
    assert forall|i: int, j: int| 0 <= i < now.len() && 0 <= j < now.len() && i != j implies now[i].vehicle.id
        != now[j].vehicle.id by {
        if i == cars.len() {
            assert(now[j] == cars[j]);
        } else if j == cars.len() {
            assert(now[i] == cars[i]);
        } else {
            assert(now[i] == cars[i] && now[j] == cars[j]);
        }
    }
    assert forall|c: CarID| #[trigger] cars_of(now).dom().contains(c) == cars_of(cars).insert(p.vehicle.id, p).dom().contains(c) by {
        if cars_of(now).dom().contains(c) {
            let i = choose|i: int| 0 <= i < now.len() && #[trigger] now[i].vehicle.id == c;
            if i < cars.len() {
                assert(cars[i].vehicle.id == c);
            }
        }
        if cars_of(cars).dom().contains(c) {
            let i = choose|i: int| 0 <= i < cars.len() && #[trigger] cars[i].vehicle.id == c;
            assert(now[i].vehicle.id == c);
        }
        if c == p.vehicle.id {
            assert(now[cars.len() as int].vehicle.id == c);
        }
    }
    assert forall|c: CarID| #[trigger] cars_of(now).dom().contains(c) implies cars_of(now)[c]
        == cars_of(cars).insert(p.vehicle.id, p)[c] by {
        let i = choose|i: int| 0 <= i < now.len() && #[trigger] now[i].vehicle.id == c;
        if c == p.vehicle.id {
            assert(now[cars.len() as int].vehicle.id == c);
        } else {
            let j = choose|j: int| 0 <= j < cars.len() && #[trigger] cars[j].vehicle.id == c;
            assert(now[j].vehicle.id == c);
        }
    }
    assert(cars_of(now) =~= cars_of(cars).insert(p.vehicle.id, p));
}

impl ParkingSimState {
    /// In a well-formed store the occupants are exactly the parked cars'
    /// spots.
    pub proof fn lemma_occupants_follow_parked(&self)
        requires
            self.wf(),
        ensures
            self.occupants() == occupants_of(self.parked()),
    {
        let m = self.parked();
        assert forall|s: ParkingSpot| #[trigger] self.occupants().dom().contains(s) == occupants_of(m).dom().contains(s) by {
            if self.occupants().dom().contains(s) {
                let c = self.status(s)->Some_0->Occupied_0;
                assert(m.contains_key(c) && m[c].spot == s);
            }
            if occupants_of(m).dom().contains(s) {
                let c = choose|c: CarID| m.contains_key(c) && #[trigger] m[c].spot == s;
                assert(self.status(m[c].spot) == Some(SpotState::Occupied(c)));
            }
        }
        assert forall|s: ParkingSpot| #[trigger] self.occupants().dom().contains(s) implies self.occupants()[s]
            == occupants_of(m)[s] by {
            let c = choose|c: CarID| m.contains_key(c) && #[trigger] m[c].spot == s;
            assert(self.status(m[c].spot) == Some(SpotState::Occupied(c)));
        }
        assert(self.occupants() =~= occupants_of(m));
    }

    /// The changing part of the store.
    pub fn save(&self) -> (r: ParkingSnapshot)
        requires
            self.wf(),
        ensures
            r.parked_cars@ == self.parked_seq(),
            unique_vehicles(r.parked_cars@),
            cars_of(r.parked_cars@) == self.parked(),
            r.reserved_spots@.no_duplicates(),
            r.reserved_spots@.to_set() == self.reserved_spots(),
            in_listing_order(r.reserved_spots@),
            r.events@ == self.pending_events(),
    {
        let mut parked_cars: Vec<ParkedCar> = Vec::new();
        let mut i: usize = 0;
        while i < self.parked_cars.len()
            invariant
                i <= self.parked_cars@.len(),
                parked_cars@ == self.parked_cars@.subrange(0, i as int),
            decreases self.parked_cars@.len() - i,
        {
            parked_cars.push(self.parked_cars[i]);
            i = i + 1;
            assert(parked_cars@ =~= self.parked_cars@.subrange(0, i as int));
        }
        assert(parked_cars@ =~= self.parked_cars@);
        let (filled, _) = self.get_all_parking_spots();
        let mut reserved_spots: Vec<ParkingSpot> = Vec::new();
        let mut k: usize = 0;
        while k < filled.len()
            invariant
                k <= filled@.len(),
                filled@.no_duplicates(),
                in_listing_order(filled@),
                in_listing_order(reserved_spots@),
                reserved_spots@.no_duplicates(),
                self.wf(),
                forall|s: ParkingSpot| #[trigger] filled@.contains(s) == (self.spot_exists(s) && !self.is_free_spec(s)),
                forall|s: ParkingSpot| #[trigger] reserved_spots@.contains(s) == ((exists|j: int| 0 <= j < k && filled@[j] == s)
                    && self.reserved_spots().contains(s)),
            decreases filled@.len() - k,
        {
            let s = filled[k];
            if self.get_car_at_spot(s).is_none() {
                let ghost before = reserved_spots@;
                proof {
                    assert(!before.contains(s)) by {
                        if before.contains(s) {
                            let j = choose|j: int| 0 <= j < k && filled@[j] == s;
                        }
                    }
                }
                proof {
                    assert forall|a: int| 0 <= a < before.len() implies spot_before(before[a], s) by {
                        assert(before.contains(before[a]));
                        let j = choose|j: int| 0 <= j < k && filled@[j] == before[a];
                    }
                }
                reserved_spots.push(s);
                proof {
                    crate::queries::lemma_push_fresh(before, reserved_spots@, s);
                    assert forall|a: int, b: int| 0 <= a < b < reserved_spots@.len() implies spot_before(
                        #[trigger] reserved_spots@[a], #[trigger] reserved_spots@[b]) by {
                        if b < before.len() {
                            assert(spot_before(before[a], before[b]));
                        }
                    }
                }
            }
            proof {
                assert(filled@.contains(s));
                assert forall|x: ParkingSpot| #[trigger] reserved_spots@.contains(x) == ((exists|j: int| 0 <= j < k + 1 && filled@[j] == x)
                    && self.reserved_spots().contains(x)) by {
                    if x == s {
                        assert(filled@[k as int] == x);
                    } else if exists|j: int| 0 <= j < k + 1 && filled@[j] == x {
                        let j = choose|j: int| 0 <= j < k + 1 && filled@[j] == x;
                        assert(j < k);
                    }
                }
            }
            k = k + 1;
        }
        proof {
            assert forall|s: ParkingSpot| #[trigger] reserved_spots@.to_set().contains(s) == self.reserved_spots().contains(s) by {
                if self.reserved_spots().contains(s) {
                    assert(filled@.contains(s));
                    let j = choose|j: int| 0 <= j < filled@.len() && filled@[j] == s;
                }
            }
            assert(reserved_spots@.to_set() =~= self.reserved_spots());
            assert forall|c: CarID| #[trigger] cars_of(parked_cars@).dom().contains(c) == self.parked().contains_key(c) by {
                if self.parked().contains_key(c) {
                    let j = choose|j: int| 0 <= j < parked_cars@.len() && #[trigger] parked_cars@[j].vehicle.id == c;
                }
            }
            assert forall|c: CarID| #[trigger] cars_of(parked_cars@).dom().contains(c) implies cars_of(parked_cars@)[c]
                == self.parked()[c] by {
                let j = choose|j: int| 0 <= j < parked_cars@.len() && #[trigger] parked_cars@[j].vehicle.id == c;
                assert(self.parked()[parked_cars@[j].vehicle.id] == parked_cars@[j]);
            }
            assert(cars_of(parked_cars@) =~= self.parked());
        }
        let mut events: Vec<Event> = Vec::new();
        let mut e: usize = 0;
        while e < self.events.len()
            invariant
                e <= self.events@.len(),
                events@ == self.events@.subrange(0, e as int),
            decreases self.events@.len() - e,
        {
            events.push(self.events[e]);
            e = e + 1;
            assert(events@ =~= self.events@.subrange(0, e as int));
        }
        assert(events@ =~= self.events@);
        ParkingSnapshot { parked_cars, reserved_spots, events }
    }

    /// Resumes a store of `map` from a snapshot; `None` when the snapshot
    /// does not fit the network.
    pub fn restore(map: &RoadNetwork, snap: &ParkingSnapshot) -> (r: Option<ParkingSimState>)
        requires
            map.wf(),
            forall|l: int|
                0 <= l < map.lanes@.len() && (#[trigger] map.lanes@[l]).lane_type
                    == crate::network::LaneType::Parking ==> map.lanes@[l].parking_to_driving is Some,
        ensures
            snapshot_fits(*map, *snap) ==> r is Some,
            r matches Some(t) ==> {
                &&& t.wf()
                &&& t.built_from(*map)
                &&& t.parked() == cars_of(snap.parked_cars@)
                &&& t.parked_seq() == snap.parked_cars@
                &&& t.reserved_spots() == snap.reserved_spots@.to_set()
                &&& t.pending_events() == snap.events@
            },
    {
        let mut st = ParkingSimState::new(map);
        let reserved = &snap.reserved_spots;
        let mut i: usize = 0;
        while i < reserved.len()
            invariant
                reserved == &snap.reserved_spots,
                i <= reserved@.len(),
                st.wf(),
                st.built_from(*map),
                forall|s: ParkingSpot| #[trigger] st.spot_exists(s) == network_spot(*map, s),
                st.parked() == Map::<CarID, ParkedCar>::empty(),
                st.parked_seq() == Seq::<ParkedCar>::empty(),
                st.occupants() == Map::<ParkingSpot, CarID>::empty(),
                st.reserved_spots() == reserved@.subrange(0, i as int).to_set(),
                snapshot_fits(*map, *snap) ==> forall|k: int| 0 <= k < reserved@.len() ==> network_spot(*map, #[trigger] reserved@[k]),
                snapshot_fits(*map, *snap) ==> reserved@.no_duplicates(),
            decreases reserved@.len() - i,
        {
            let s = reserved[i];
            if !st.has_spot(s) || !st.is_free(s) {
                proof {
                    if snapshot_fits(*map, *snap) {
                        assert(network_spot(*map, reserved@[i as int]));
                        assert(!reserved@.subrange(0, i as int).contains(s)) by {
                            if reserved@.subrange(0, i as int).contains(s) {
                                let j = choose|j: int| 0 <= j < i && reserved@.subrange(0, i as int)[j] == s;
                                assert(reserved@[j] == s);
                            }
                        }
                    }
                }
                return None;
            }
            st.reserve_spot(s);
            i = i + 1;
            proof {
                assert(reserved@.subrange(0, i as int) =~= reserved@.subrange(0, i - 1).push(s));
                reserved@.subrange(0, i - 1).lemma_push_to_set_commute(s);
            }
        }
        proof {
            assert(reserved@.subrange(0, i as int) =~= reserved@);
        }
        let cars = &snap.parked_cars;
        let mut i: usize = 0;
        while i < cars.len()
            invariant
                cars == &snap.parked_cars,
                i <= cars@.len(),
                st.wf(),
                st.built_from(*map),
                forall|s: ParkingSpot| #[trigger] st.spot_exists(s) == network_spot(*map, s),
                st.parked() == cars_of(cars@.subrange(0, i as int)),
                st.parked_seq() == cars@.subrange(0, i as int),
                unique_vehicles(cars@.subrange(0, i as int)),
                st.reserved_spots() == snap.reserved_spots@.to_set(),
            decreases cars@.len() - i,
        {
            let p = cars[i];
            let ghost prefix = cars@.subrange(0, i as int);
            if !st.has_spot(p.spot) || !st.is_free(p.spot) || st.lookup_parked_car(p.vehicle.id).is_some() {
                proof {
                    if snapshot_fits(*map, *snap) {
                        assert(network_spot(*map, cars@[i as int].spot));
                        st.lemma_occupants_follow_parked();
                        assert(!st.occupants().dom().contains(p.spot)) by {
                            if st.occupants().dom().contains(p.spot) {
                                let c = choose|c: CarID| st.parked().contains_key(c) && #[trigger] st.parked()[c].spot == p.spot;
                                let j = choose|j: int| 0 <= j < prefix.len() && #[trigger] prefix[j].vehicle.id == c;
                                assert(cars@[j].spot == p.spot);
                            }
                        }
                        assert(!snap.reserved_spots@.contains(cars@[i as int].spot));
                        assert(!st.parked().contains_key(p.vehicle.id)) by {
                            if st.parked().contains_key(p.vehicle.id) {
                                let j = choose|j: int| 0 <= j < prefix.len() && #[trigger] prefix[j].vehicle.id == p.vehicle.id;
                                assert(cars@[j].vehicle.id == p.vehicle.id);
                            }
                        }
                    }
                }
                return None;
            }
            st.reserve_spot(p.spot);
            st.add_parked_car(p);
            proof {
                lemma_cars_of_push(prefix, p);
                assert(cars@.subrange(0, i + 1) =~= prefix.push(p));
                assert(st.reserved_spots() =~= snap.reserved_spots@.to_set());
            }
            i = i + 1;
        }
        proof {
            assert(cars@.subrange(0, i as int) =~= cars@);
        }
        let mut events: Vec<Event> = Vec::new();
        let mut e: usize = 0;
        while e < snap.events.len()
            invariant
                e <= snap.events@.len(),
                events@ == snap.events@.subrange(0, e as int),
            decreases snap.events@.len() - e,
        {
            events.push(snap.events[e]);
            e = e + 1;
            assert(events@ =~= snap.events@.subrange(0, e as int));
        }
        assert(events@ =~= snap.events@);
        st.replace_events(events);
        Some(st)
    }
}

/// Saving a store and resuming from the snapshot on the network that the
/// store was built from gives back a store equal by value: the same spots,
/// the same free ones, and the same parked cars, occupants, reservations
/// and pending events.
pub proof fn lemma_snapshot_round_trip(
    st: ParkingSimState,
    map: RoadNetwork,
    snap: ParkingSnapshot,
    back: ParkingSimState,
)
    requires
        st.wf(),
        st.built_from(map),
        snap.parked_cars@ == st.parked_seq(),
        unique_vehicles(snap.parked_cars@),
        cars_of(snap.parked_cars@) == st.parked(),
        snap.reserved_spots@.no_duplicates(),
        snap.reserved_spots@.to_set() == st.reserved_spots(),
        snap.events@ == st.pending_events(),
        back.wf(),
        back.built_from(map),
        back.parked() == cars_of(snap.parked_cars@),
        back.reserved_spots() == snap.reserved_spots@.to_set(),
        back.pending_events() == snap.events@,
    ensures
        snapshot_fits(map, snap),
        back.parked() == st.parked(),
        back.occupants() == st.occupants(),
        back.reserved_spots() == st.reserved_spots(),
        back.pending_events() == st.pending_events(),
        forall|s: ParkingSpot| #[trigger] back.spot_exists(s) == st.spot_exists(s),
        forall|s: ParkingSpot| #[trigger] back.is_free_spec(s) == st.is_free_spec(s),
{
    assert forall|s: ParkingSpot| #[trigger] back.spot_exists(s) == st.spot_exists(s) by {
        st.lemma_spot_in_network(map, s);
        back.lemma_spot_in_network(map, s);
    }
    st.lemma_occupants_follow_parked();
    back.lemma_occupants_follow_parked();
    let cars = snap.parked_cars@;
    let reserved = snap.reserved_spots@;
    assert forall|k: int| 0 <= k < reserved.len() implies network_spot(map, #[trigger] reserved[k]) by {
        assert(reserved.to_set().contains(reserved[k]));
        st.lemma_spot_in_network(map, reserved[k]);
    }
    assert forall|k: int| 0 <= k < cars.len() implies network_spot(map, (#[trigger] cars[k]).spot)
        && !reserved.contains(cars[k].spot) by {
        assert(st.status(cars[k].spot) == Some(SpotState::Occupied(cars[k].vehicle.id)));
        st.lemma_spot_in_network(map, cars[k].spot);
        if reserved.contains(cars[k].spot) {
            assert(reserved.to_set().contains(cars[k].spot));
        }
    }
    assert forall|i: int, j: int| 0 <= i < cars.len() && 0 <= j < cars.len() && i != j implies cars[i].spot != cars[j].spot by {
        assert(st.status(cars[i].spot) == Some(SpotState::Occupied(cars[i].vehicle.id)));
        assert(st.status(cars[j].spot) == Some(SpotState::Occupied(cars[j].vehicle.id)));
    }
}

/// Two lists in listing order that hold the same spots are the same list.
pub proof fn lemma_listing_order_unique(a: Seq<ParkingSpot>, b: Seq<ParkingSpot>)
    requires
        in_listing_order(a),
        in_listing_order(b),
        forall|s: ParkingSpot| #[trigger] a.contains(s) == b.contains(s),
    ensures
        a == b,
    decreases a.len(),
{
    if a.len() == 0 {
        if b.len() > 0 {
            assert(b.contains(b[0]));
            assert(a.contains(b[0]));
        }
        assert(a =~= b);
    } else {
        assert(a.contains(a[0]));
        let j = choose|j: int| 0 <= j < b.len() && b[j] == a[0];
        assert(b.contains(b[0]));
        assert(a.contains(b[0]));
        let i = choose|i: int| 0 <= i < a.len() && a[i] == b[0];
        if j > 0 {
            assert(spot_before(b[0], b[j]));
            if i > 0 {
                assert(spot_before(a[0], a[i]));
            }
        }
        assert(a[0] == b[0]);
        let a1 = a.drop_first();
        let b1 = b.drop_first();
        assert forall|s: ParkingSpot| #[trigger] a1.contains(s) == b1.contains(s) by {
            if a1.contains(s) {
                let k = choose|k: int| 0 <= k < a1.len() && a1[k] == s;
                assert(spot_before(a[0], a[k + 1]));
                assert(a.contains(s));
                let m = choose|m: int| 0 <= m < b.len() && b[m] == s;
                if m == 0 {
                    assert(s == a[0]);
                }
                assert(b1[m - 1] == s);
            }
            if b1.contains(s) {
                let k = choose|k: int| 0 <= k < b1.len() && b1[k] == s;
                assert(spot_before(b[0], b[k + 1]));
                assert(b.contains(s));
                assert(a.contains(s));
                let m = choose|m: int| 0 <= m < a.len() && a[m] == s;
                if m == 0 {
                    assert(b[k + 1] == b[0]);
                    assert(spot_before(b[0], b[0]));
                }
                assert(a1[m - 1] == s);
            }
        }
        assert(in_listing_order(a1)) by {
            assert forall|x: int, y: int| 0 <= x < y < a1.len() implies spot_before(#[trigger] a1[x], #[trigger] a1[y]) by {
                assert(spot_before(a[x + 1], a[y + 1]));
            }
        }
        assert(in_listing_order(b1)) by {
            assert forall|x: int, y: int| 0 <= x < y < b1.len() implies spot_before(#[trigger] b1[x], #[trigger] b1[y]) by {
                assert(spot_before(b[x + 1], b[y + 1]));
            }
        }
        lemma_listing_order_unique(a1, b1);
        assert(a =~= b) by {
            assert forall|k: int| 0 <= k < a.len() implies a[k] == b[k] by {
                if k > 0 {
                    assert(a[k] == a1[k - 1] && b[k] == b1[k - 1]);
                }
            }
        }
    }
}

/// After a snapshot round trip the store lists its spots exactly as
/// before: the same occupied-or-reserved spots and the same free spots, in
/// the same order.
pub proof fn lemma_round_trip_same_listing(
    st: ParkingSimState,
    back: ParkingSimState,
    before: (Seq<ParkingSpot>, Seq<ParkingSpot>),
    after: (Seq<ParkingSpot>, Seq<ParkingSpot>),
)
    requires
        forall|s: ParkingSpot| #[trigger] back.spot_exists(s) == st.spot_exists(s),
        forall|s: ParkingSpot| #[trigger] back.is_free_spec(s) == st.is_free_spec(s),
        forall|s: ParkingSpot| #[trigger] before.0.contains(s) == (st.spot_exists(s) && !st.is_free_spec(s)),
        forall|s: ParkingSpot| #[trigger] before.1.contains(s) == (st.spot_exists(s) && st.is_free_spec(s)),
        in_listing_order(before.0),
        in_listing_order(before.1),
        forall|s: ParkingSpot| #[trigger] after.0.contains(s) == (back.spot_exists(s) && !back.is_free_spec(s)),
        forall|s: ParkingSpot| #[trigger] after.1.contains(s) == (back.spot_exists(s) && back.is_free_spec(s)),
        in_listing_order(after.0),
        in_listing_order(after.1),
    ensures
        before == after,
{
    assert forall|s: ParkingSpot| #[trigger] before.0.contains(s) == after.0.contains(s) by {
        assert(back.spot_exists(s) == st.spot_exists(s));
        assert(back.is_free_spec(s) == st.is_free_spec(s));
    }
    assert forall|s: ParkingSpot| #[trigger] before.1.contains(s) == after.1.contains(s) by {
        assert(back.spot_exists(s) == st.spot_exists(s));
        assert(back.is_free_spec(s) == st.is_free_spec(s));
    }
    lemma_listing_order_unique(before.0, after.0);
    lemma_listing_order_unique(before.1, after.1);
}

} // verus!
