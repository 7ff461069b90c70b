//! Read-only queries over the parking store's spots.
use vstd::prelude::*;
use crate::parking::{ParkingSimState, SpotState};
use crate::types::{BuildingID, CarID, LaneID, ParkingLotID, ParkingSpot};

verus! {

/// The three kinds of spot.
#[derive(Clone, Copy, Debug, PartialEq, Eq, Structural)]
pub enum SpotKind {
    Onstreet,
    Offstreet,
    Lot,
}

/// Slot `i` of entity `e` of the given kind.
pub open spec fn spot_of(kind: SpotKind, e: usize, i: usize) -> ParkingSpot {
    match kind {
        SpotKind::Onstreet => ParkingSpot::Onstreet(e, i),
        SpotKind::Offstreet => ParkingSpot::Offstreet(e, i),
        SpotKind::Lot => ParkingSpot::Lot(e, i),
    }
}

/// The slot number of a spot within its lane, building or lot.
pub open spec fn slot_index(spot: ParkingSpot) -> usize {
    match spot {
        ParkingSpot::Onstreet(_, i) => i,
        ParkingSpot::Offstreet(_, i) => i,
        ParkingSpot::Lot(_, i) => i,
    }
}

/// Position of a kind in the store's listing order.
pub open spec fn kind_rank(kind: SpotKind) -> int {
    match kind {
        SpotKind::Onstreet => 0,
        SpotKind::Offstreet => 1,
        SpotKind::Lot => 2,
    }
}

/// Spot `a` comes before spot `b` in the store's listing order: curb spots,
/// then garage spots, then lot spots; within a kind by lane, building or
/// lot; within that by slot.
pub open spec fn spot_before(a: ParkingSpot, b: ParkingSpot) -> bool {
    kind_rank(kind_of(a)) < kind_rank(kind_of(b)) || (kind_of(a) == kind_of(b) && (entity_of(a) < entity_of(b)
        || (entity_of(a) == entity_of(b) && slot_index(a) < slot_index(b))))
}

/// The spots of `s` are in listing order.
pub open spec fn in_listing_order(s: Seq<ParkingSpot>) -> bool {
    forall|i: int, j: int| 0 <= i < j < s.len() ==> spot_before(#[trigger] s[i], #[trigger] s[j])
}

/// Spot `x` comes before every spot of entity `e` of the given kind.
pub open spec fn before_entity(x: ParkingSpot, kind: SpotKind, e: usize) -> bool {
    kind_rank(kind_of(x)) < kind_rank(kind) || (kind_of(x) == kind && entity_of(x) < e)
}

/// The kind of a spot.
pub open spec fn kind_of(spot: ParkingSpot) -> SpotKind {
    match spot {
        ParkingSpot::Onstreet(_, _) => SpotKind::Onstreet,
        ParkingSpot::Offstreet(_, _) => SpotKind::Offstreet,
        ParkingSpot::Lot(_, _) => SpotKind::Lot,
    }
}

/// The lane, building or lot that a spot belongs to.
pub open spec fn entity_of(spot: ParkingSpot) -> usize {
    match spot {
        ParkingSpot::Onstreet(e, _) => e,
        ParkingSpot::Offstreet(e, _) => e,
        ParkingSpot::Lot(e, _) => e,
    }
}

/// Pushing an item that a duplicate-free list lacks keeps it duplicate-free
/// and adds just that item.
pub(crate) proof fn lemma_push_fresh<T>(before: Seq<T>, now: Seq<T>, x_new: T)
    requires
        now == before.push(x_new),
        before.no_duplicates(),
        !before.contains(x_new),
    ensures
        now.no_duplicates(),
        forall|x: T| #[trigger] now.contains(x) == (before.contains(x) || x == x_new),
{
    assert forall|i: int, j: int| 0 <= i < now.len() && 0 <= j < now.len() && i != j implies now[i]
        != now[j] by {
        if i == before.len() {
            assert(before[j] == now[j]);
        } else if j == before.len() {
            assert(before[i] == now[i]);
        }
    }
    assert forall|x: T| #[trigger] now.contains(x) == (before.contains(x) || x == x_new) by {
        if x == x_new {
            assert(now[before.len() as int] == x);
        } else {
            if now.contains(x) {
                let j = choose|j: int| 0 <= j < now.len() && now[j] == x;
                assert(before[j] == x);
            }
            if before.contains(x) {
                let j = choose|j: int| 0 <= j < before.len() && before[j] == x;
                assert(now[j] == x);
            }
        }
    }
}

pub(crate) fn make_spot(kind: SpotKind, e: usize, i: usize) -> (r: ParkingSpot)
    ensures
        r == spot_of(kind, e, i),
{
    match kind {
        SpotKind::Onstreet => ParkingSpot::Onstreet(e, i),
        SpotKind::Offstreet => ParkingSpot::Offstreet(e, i),
        SpotKind::Lot => ParkingSpot::Lot(e, i),
    }
}

impl ParkingSimState {
    /// Vehicles occupying the first `n` slots of entity `e` of the given
    /// kind, by slot.
    pub open spec fn occupants_in(&self, kind: SpotKind, e: usize, n: nat) -> Seq<CarID>
        decreases n,
    {
        if n == 0 {
            Seq::empty()
        } else {
            let before = self.occupants_in(kind, e, (n - 1) as nat);
            let spot = spot_of(kind, e, (n - 1) as usize);
            if self.occupants().dom().contains(spot) {
                before.push(self.occupants()[spot])
            } else {
                before
            }
        }
    }

    /// Number of slots of entity `e` of the given kind.
    pub open(crate) spec fn slot_count(&self, kind: SpotKind, e: usize) -> nat {
        self.row(kind, e).len()
    }

    /// `r` lists, by increasing slot number, exactly the free spots of
    /// entity `e` of the given kind.
    pub open spec fn lists_free_slots(&self, r: Seq<ParkingSpot>, kind: SpotKind, e: usize) -> bool {
        &&& forall|k: int|
            0 <= k < r.len() ==> {
                &&& #[trigger] r[k] == spot_of(kind, e, slot_index(r[k]))
                &&& self.spot_exists(r[k])
                &&& self.is_free_spec(r[k])
            }
        &&& forall|k1: int, k2: int|
            0 <= k1 < k2 < r.len() ==> slot_index(#[trigger] r[k1]) < slot_index(#[trigger] r[k2])
        &&& forall|i: usize|
            #![trigger spot_of(kind, e, i)]
            self.spot_exists(spot_of(kind, e, i)) && self.is_free_spec(spot_of(kind, e, i))
                ==> r.contains(spot_of(kind, e, i))
    }

    pub open(crate) spec fn row(&self, kind: SpotKind, e: usize) -> Seq<SpotState> {
        let rows = match kind {
            SpotKind::Onstreet => self.onstreet_slots@,
            SpotKind::Offstreet => self.offstreet_slots@,
            SpotKind::Lot => self.lot_slots@,
        };
        if e < rows.len() {
            rows[e as int]@
        } else {
            Seq::empty()
        }
    }

    pub(crate) fn row_len(&self, kind: SpotKind, e: usize) -> (r: usize)
        ensures
            r == self.row(kind, e).len(),
            forall|i: usize| #[trigger] self.spot_exists(spot_of(kind, e, i)) == (i < r),
    {
        let rows = match kind {
            SpotKind::Onstreet => &self.onstreet_slots,
            SpotKind::Offstreet => &self.offstreet_slots,
            SpotKind::Lot => &self.lot_slots,
        };
        if e < rows.len() {
            rows[e].len()
        } else {
            0
        }
    }

    /// Appends to `out` the slots of entity `e` of the given kind that are
    /// free (when `free` holds) or not free (otherwise), by slot.
    pub(crate) fn push_slots(&self, kind: SpotKind, e: usize, free: bool, out: &mut Vec<ParkingSpot>)
        requires
            old(out)@.no_duplicates(),
            forall|s: ParkingSpot| #[trigger] old(out)@.contains(s) ==> !(kind_of(s) == kind && entity_of(s) == e),
        ensures
            final(out)@.no_duplicates(),
            in_listing_order(old(out)@) && (forall|s: ParkingSpot| #[trigger] old(out)@.contains(s) ==> before_entity(s, kind, e))
                ==> in_listing_order(final(out)@),
            forall|s: ParkingSpot| #[trigger] final(out)@.contains(s) == (old(out)@.contains(s)
                || (kind_of(s) == kind && entity_of(s) == e && self.spot_exists(s) && self.is_free_spec(s) == free)),
    {
        let n = self.row_len(kind, e);
        let ghost ordered = in_listing_order(old(out)@) && (forall|s: ParkingSpot| #[trigger] old(out)@.contains(s) ==> before_entity(s, kind, e));
        let mut i: usize = 0;
        while i < n
            invariant
                forall|j: usize| #[trigger] self.spot_exists(spot_of(kind, e, j)) == (j < n),
                i <= n,
                forall|s: ParkingSpot| #[trigger] old(out)@.contains(s) ==> !(kind_of(s) == kind && entity_of(s) == e),
                out@.no_duplicates(),
                ordered == (in_listing_order(old(out)@) && (forall|s: ParkingSpot| #[trigger] old(out)@.contains(s) ==> before_entity(s, kind, e))),
                ordered ==> in_listing_order(out@),
                forall|s: ParkingSpot| #[trigger] out@.contains(s) == (old(out)@.contains(s)
                    || (kind_of(s) == kind && entity_of(s) == e && slot_index(s) < i && self.spot_exists(s) && self.is_free_spec(s) == free)),
            decreases n - i,
        {
            let spot = make_spot(kind, e, i);
            proof {
                assert(self.spot_exists(spot_of(kind, e, i)));
                assert(kind_of(spot) == kind && entity_of(spot) == e && slot_index(spot) == i) by {
                    match kind {
                        SpotKind::Onstreet => {},
                        SpotKind::Offstreet => {},
                        SpotKind::Lot => {},
                    }
                }
                assert(!old(out)@.contains(spot));
            }
            if self.is_free(spot) == free {
                let ghost before = out@;
                out.push(spot);
                proof {
                    lemma_push_fresh(before, out@, spot);
                    if ordered {
                        assert forall|k: int| 0 <= k < before.len() implies spot_before(before[k], spot) by {
                            assert(before.contains(before[k]));
                        }
                        assert forall|a: int, b: int| 0 <= a < b < out@.len() implies spot_before(#[trigger] out@[a], #[trigger] out@[b]) by {
                            if b < before.len() {
                                assert(spot_before(before[a], before[b]));
                            }
                        }
                    }
                }
            }
            proof {
                assert forall|s: ParkingSpot| kind_of(s) == kind && entity_of(s) == e implies s == spot_of(kind, e, slot_index(s)) by {
                    match s {
                        ParkingSpot::Onstreet(_, _) => {},
                        ParkingSpot::Offstreet(_, _) => {},
                        ParkingSpot::Lot(_, _) => {},
                    }
                }
            }
            i = i + 1;
        }
        proof {
            assert forall|s: ParkingSpot| kind_of(s) == kind && entity_of(s) == e && self.spot_exists(s) implies slot_index(s) < n by {
                assert(s == spot_of(kind, e, slot_index(s))) by {
                    match s {
                        ParkingSpot::Onstreet(_, _) => {},
                        ParkingSpot::Offstreet(_, _) => {},
                        ParkingSpot::Lot(_, _) => {},
                    }
                }
            }
        }
    }

    fn free_slots(&self, kind: SpotKind, e: usize) -> (r: Vec<ParkingSpot>)
        ensures
            self.lists_free_slots(r@, kind, e),
    {
        let mut spots: Vec<ParkingSpot> = Vec::new();
        self.push_slots(kind, e, true, &mut spots);
        proof {
            assert forall|k: int| 0 <= k < spots@.len() implies {
                &&& #[trigger] spots@[k] == spot_of(kind, e, slot_index(spots@[k]))
                &&& self.spot_exists(spots@[k])
                &&& self.is_free_spec(spots@[k])
            } by {
                assert(spots@.contains(spots@[k]));
                let s = spots@[k];
                match s {
                    ParkingSpot::Onstreet(_, _) => {},
                    ParkingSpot::Offstreet(_, _) => {},
                    ParkingSpot::Lot(_, _) => {},
                }
                match kind {
                    SpotKind::Onstreet => {},
                    SpotKind::Offstreet => {},
                    SpotKind::Lot => {},
                }
            }
            assert forall|k1: int, k2: int| 0 <= k1 < k2 < spots@.len() implies slot_index(#[trigger] spots@[k1])
                < slot_index(#[trigger] spots@[k2]) by {
                assert(spots@.contains(spots@[k1]) && spots@.contains(spots@[k2]));
                assert(spot_before(spots@[k1], spots@[k2]));
            }
            assert forall|i: usize|
                #![trigger spot_of(kind, e, i)]
                self.spot_exists(spot_of(kind, e, i)) && self.is_free_spec(spot_of(kind, e, i)) implies spots@.contains(
                    spot_of(kind, e, i)) by {
                assert(kind_of(spot_of(kind, e, i)) == kind && entity_of(spot_of(kind, e, i)) == e) by {
                    match kind {
                        SpotKind::Onstreet => {},
                        SpotKind::Offstreet => {},
                        SpotKind::Lot => {},
                    }
                }
            }
        }
        spots
    }

    /// The free curb spots of lane `l`, by slot number.
    pub fn get_free_onstreet_spots(&self, l: LaneID) -> (r: Vec<ParkingSpot>)
        ensures
            self.lists_free_slots(r@, SpotKind::Onstreet, l),
    {
        self.free_slots(SpotKind::Onstreet, l)
    }

    /// The free garage spots of building `b`, by slot number.
    pub fn get_free_offstreet_spots(&self, b: BuildingID) -> (r: Vec<ParkingSpot>)
        ensures
            self.lists_free_slots(r@, SpotKind::Offstreet, b),
    {
        self.free_slots(SpotKind::Offstreet, b)
    }

    /// The free spots of lot `pl`, by slot number.
    pub fn get_free_lot_spots(&self, pl: ParkingLotID) -> (r: Vec<ParkingSpot>)
        ensures
            self.lists_free_slots(r@, SpotKind::Lot, pl),
    {
        self.free_slots(SpotKind::Lot, pl)
    }

    fn rows_len(&self, kind: SpotKind) -> (r: usize)
        ensures
            forall|s: ParkingSpot|
                #[trigger] self.spot_exists(s) && kind_of(s) == kind ==> entity_of(s) < r,
    {
        match kind {
            SpotKind::Onstreet => self.onstreet_slots.len(),
            SpotKind::Offstreet => self.offstreet_slots.len(),
            SpotKind::Lot => self.lot_slots.len(),
        }
    }

    /// Appends the spots of entity `e` to `filled` (not free) or `available`.
    fn partition_row(
        &self,
        kind: SpotKind,
        e: usize,
        filled: &mut Vec<ParkingSpot>,
        available: &mut Vec<ParkingSpot>,
    )
        requires
            old(filled)@.no_duplicates(),
            old(available)@.no_duplicates(),
            in_listing_order(old(filled)@),
            in_listing_order(old(available)@),
            forall|s: ParkingSpot| #[trigger] old(filled)@.contains(s) ==> before_entity(s, kind, e),
            forall|s: ParkingSpot| #[trigger] old(available)@.contains(s) ==> before_entity(s, kind, e),
        ensures
            in_listing_order(final(filled)@),
            in_listing_order(final(available)@),
            final(filled)@.no_duplicates(),
            final(available)@.no_duplicates(),
            forall|s: ParkingSpot| #[trigger] final(filled)@.contains(s) == (old(filled)@.contains(s)
                || (kind_of(s) == kind && entity_of(s) == e && self.spot_exists(s) && !self.is_free_spec(s))),
            forall|s: ParkingSpot| #[trigger] final(available)@.contains(s) == (old(available)@.contains(s)
                || (kind_of(s) == kind && entity_of(s) == e && self.spot_exists(s) && self.is_free_spec(s))),
    {
        self.push_slots(kind, e, false, filled);
        self.push_slots(kind, e, true, available);
    }

    /// Appends every spot of the given kind to `filled` (not free) or `available`.
    fn partition_kind(&self, kind: SpotKind, filled: &mut Vec<ParkingSpot>, available: &mut Vec<ParkingSpot>)
        requires
            old(filled)@.no_duplicates(),
            old(available)@.no_duplicates(),
            in_listing_order(old(filled)@),
            in_listing_order(old(available)@),
            forall|s: ParkingSpot| #[trigger] old(filled)@.contains(s) ==> kind_rank(kind_of(s)) < kind_rank(kind),
            forall|s: ParkingSpot| #[trigger] old(available)@.contains(s) ==> kind_rank(kind_of(s)) < kind_rank(kind),
        ensures
            in_listing_order(final(filled)@),
            in_listing_order(final(available)@),
            final(filled)@.no_duplicates(),
            final(available)@.no_duplicates(),
            forall|s: ParkingSpot| #[trigger] final(filled)@.contains(s) == (old(filled)@.contains(s)
                || (kind_of(s) == kind && self.spot_exists(s) && !self.is_free_spec(s))),
            forall|s: ParkingSpot| #[trigger] final(available)@.contains(s) == (old(available)@.contains(s)
                || (kind_of(s) == kind && self.spot_exists(s) && self.is_free_spec(s))),
    {
        let n = self.rows_len(kind);
        let mut e: usize = 0;
        while e < n
            invariant
                forall|s: ParkingSpot|
                    #[trigger] self.spot_exists(s) && kind_of(s) == kind ==> entity_of(s) < n,
                e <= n,
                forall|s: ParkingSpot| #[trigger] old(filled)@.contains(s) ==> kind_rank(kind_of(s)) < kind_rank(kind),
                forall|s: ParkingSpot| #[trigger] old(available)@.contains(s) ==> kind_rank(kind_of(s)) < kind_rank(kind),
                in_listing_order(filled@),
                in_listing_order(available@),
                filled@.no_duplicates(),
                available@.no_duplicates(),
                forall|s: ParkingSpot| #[trigger] filled@.contains(s) == (old(filled)@.contains(s)
                    || (kind_of(s) == kind && entity_of(s) < e && self.spot_exists(s) && !self.is_free_spec(s))),
                forall|s: ParkingSpot| #[trigger] available@.contains(s) == (old(available)@.contains(s)
                    || (kind_of(s) == kind && entity_of(s) < e && self.spot_exists(s) && self.is_free_spec(s))),
            decreases n - e,
        {
            assert forall|s: ParkingSpot| #[trigger] filled@.contains(s) implies before_entity(s, kind, e) by {
                if old(filled)@.contains(s) {
                }
            }
            assert forall|s: ParkingSpot| #[trigger] available@.contains(s) implies before_entity(s, kind, e) by {
                if old(available)@.contains(s) {
                }
            }
            self.partition_row(kind, e, filled, available);
            e = e + 1;
        }
    }

    /// Every spot of the store, split into those that are not free (occupied
    /// or reserved) and those that are free.
    pub fn get_all_parking_spots(&self) -> (r: (Vec<ParkingSpot>, Vec<ParkingSpot>))
        ensures
            r.0@.no_duplicates(),
            r.1@.no_duplicates(),
            forall|s: ParkingSpot| #[trigger] r.0@.contains(s) == (self.spot_exists(s) && !self.is_free_spec(s)),
            forall|s: ParkingSpot| #[trigger] r.1@.contains(s) == (self.spot_exists(s) && self.is_free_spec(s)),
            in_listing_order(r.0@),
            in_listing_order(r.1@),
    {
        let mut filled: Vec<ParkingSpot> = Vec::new();
        let mut available: Vec<ParkingSpot> = Vec::new();
        self.partition_kind(SpotKind::Onstreet, &mut filled, &mut available);
        self.partition_kind(SpotKind::Offstreet, &mut filled, &mut available);
        self.partition_kind(SpotKind::Lot, &mut filled, &mut available);
        (filled, available)
    }

    fn parked_cars_at(&self, kind: SpotKind, e: usize) -> (r: Vec<CarID>)
        ensures
            r@ == self.occupants_in(kind, e, self.slot_count(kind, e)),
    {
        let n = self.row_len(kind, e);
        let mut cars: Vec<CarID> = Vec::new();
        let mut i: usize = 0;
        while i < n
            invariant
                n == self.slot_count(kind, e),
                i <= n,
                cars@ == self.occupants_in(kind, e, i as nat),
            decreases n - i,
        {
            let spot = make_spot(kind, e, i);
            match self.spot_status(spot) {
                Some(SpotState::Occupied(c)) => {
                    cars.push(c);
                },
                _ => {},
            }
            i = i + 1;
        }
        cars
    }

    /// The vehicles parked along curb lane `l`, by slot.
    pub fn get_parked_cars_onstreet(&self, l: LaneID) -> (r: Vec<CarID>)
        ensures
            r@ == self.occupants_in(SpotKind::Onstreet, l, self.slot_count(SpotKind::Onstreet, l)),
    {
        self.parked_cars_at(SpotKind::Onstreet, l)
    }

    /// The vehicles parked in lot `pl`, by slot.
    pub fn get_parked_cars_in_lot(&self, pl: ParkingLotID) -> (r: Vec<CarID>)
        ensures
            r@ == self.occupants_in(SpotKind::Lot, pl, self.slot_count(SpotKind::Lot, pl)),
    {
        self.parked_cars_at(SpotKind::Lot, pl)
    }
}

} // verus!
