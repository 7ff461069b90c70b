//! Properties of the reservation protocol that span several operations.
use vstd::prelude::*;
use crate::parking::ParkingSimState;
use crate::types::{ParkedCar, ParkingSpot};

verus! {

/// No spot is both occupied and reserved.
pub proof fn lemma_occupied_never_reserved(st: ParkingSimState, spot: ParkingSpot)
    ensures
        !(st.occupants().dom().contains(spot) && st.reserved_spots().contains(spot)),
{
}

/// The spot of every parked car is occupied by that car.
pub proof fn lemma_parked_car_occupies_its_spot(st: ParkingSimState, p: ParkedCar)
    requires
        st.wf(),
        st.parked().contains_key(p.vehicle.id),
        st.parked()[p.vehicle.id].spot == p.spot,
    ensures
        st.occupants().dom().contains(p.spot),
        st.occupants()[p.spot] == p.vehicle.id,
        !st.is_free_spec(p.spot),
{
}

/// Reserving a free spot and then parking a car there takes the spot from
/// free to reserved to occupied: after the reservation the car may be
/// parked, and afterwards the spot is occupied by it, not free and no longer
/// reserved.
pub proof fn lemma_reserve_then_park(s0: ParkingSimState, s1: ParkingSimState, s2: ParkingSimState, p: ParkedCar)
    requires
        s0.wf(),
        s0.spot_exists(p.spot),
        s0.is_free_spec(p.spot),
        !s0.parked().contains_key(p.vehicle.id),
        s1.reserved_spots() == s0.reserved_spots().insert(p.spot),
        s1.occupants() == s0.occupants(),
        s1.parked() == s0.parked(),
        s2.reserved_spots() == s1.reserved_spots().remove(p.spot),
        s2.occupants() == s1.occupants().insert(p.spot, p.vehicle.id),
    ensures
        s1.reserved_spots().contains(p.spot),
        !s1.is_free_spec(p.spot),
        !s1.parked().contains_key(p.vehicle.id),
        s2.occupants()[p.spot] == p.vehicle.id,
        !s2.is_free_spec(p.spot),
        !s2.reserved_spots().contains(p.spot),
{
}

/// A spot is reusable: once its car has left, the spot is free again, so it
/// can be reserved and taken by another car, which then occupies it.
pub proof fn lemma_spot_reuse(
    s0: ParkingSimState,
    s1: ParkingSimState,
    s2: ParkingSimState,
    s3: ParkingSimState,
    gone: ParkedCar,
    next: ParkedCar,
)
    requires
        s0.wf(),
        s0.parked().contains_key(gone.vehicle.id),
        s0.parked()[gone.vehicle.id].spot == gone.spot,
        next.spot == gone.spot,
        next.vehicle.id != gone.vehicle.id,
        !s0.parked().contains_key(next.vehicle.id),
        forall|s: ParkingSpot| #[trigger] s1.spot_exists(s) == s0.spot_exists(s),
        s1.reserved_spots() == s0.reserved_spots(),
        s1.occupants() == s0.occupants().remove(gone.spot),
        s1.parked() == s0.parked().remove(gone.vehicle.id),
        s2.reserved_spots() == s1.reserved_spots().insert(next.spot),
        s2.occupants() == s1.occupants(),
        s2.parked() == s1.parked(),
        s3.reserved_spots() == s2.reserved_spots().remove(next.spot),
        s3.occupants() == s2.occupants().insert(next.spot, next.vehicle.id),
    ensures
        s1.spot_exists(gone.spot),
        s1.is_free_spec(gone.spot),
        !s1.parked().contains_key(next.vehicle.id),
        s2.reserved_spots().contains(next.spot),
        s3.occupants()[gone.spot] == next.vehicle.id,
        s3.occupants()[gone.spot] != s0.occupants()[gone.spot],
        !s3.is_free_spec(gone.spot),
{
    lemma_parked_car_occupies_its_spot(s0, gone);
    lemma_occupied_never_reserved(s0, gone.spot);
}

} // verus!
