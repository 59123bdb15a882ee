//! The ledger of occupancy and reservation: which spots are taken, and by whom.
//!
//! A spot is free, reserved or occupied, and never two of these at once. A driver
//! reserves a free spot, occupies it on arrival, and frees it on leaving.

use crate::ids::{CarID, PersonID};
use crate::ordered::{keys_in_order, strictly_ascending};
use crate::spot::{ParkingSpot, SpotKey};
use crate::vehicle::ParkedCar;
use std::collections::{BTreeMap, BTreeSet};
use vstd::prelude::*;

verus! {

/// The ledger.
#[derive(Clone, Debug)]
pub struct Ledger {
    parked_cars: BTreeMap<usize, ParkedCar>,
    occupants: BTreeMap<SpotKey, usize>,
    reserved_spots: BTreeSet<SpotKey>,
}

/// The ledger as contracts speak of it.
pub struct LedgerView {
    /// The cars that stand in a spot.
    pub parked_cars: Map<CarID, ParkedCar>,
    /// For each occupied spot the car that stands in it.
    pub occupants: Map<ParkingSpot, CarID>,
    /// The spots that are claimed but not yet occupied.
    pub reserved: Set<ParkingSpot>,
}

impl LedgerView {
    /// No spot is both reserved and occupied, and the two tables of parked cars
    /// say the same: a car stands in the spot that is occupied by it.
    pub open spec fn wf(self) -> bool {
        &&& forall|spot: ParkingSpot| #[trigger]
            self.occupants.contains_key(spot) ==> {
                &&& !self.reserved.contains(spot)
                &&& self.parked_cars.contains_key(self.occupants[spot])
                &&& self.parked_cars[self.occupants[spot]].spot == spot
            }
        &&& forall|car: CarID| #[trigger]
            self.parked_cars.contains_key(car) ==> {
                &&& self.parked_cars[car].vehicle.id == car
                &&& self.occupants.contains_key(self.parked_cars[car].spot)
                &&& self.occupants[self.parked_cars[car].spot] == car
            }
    }

    pub open spec fn empty() -> LedgerView {
        LedgerView { parked_cars: Map::empty(), occupants: Map::empty(), reserved: Set::empty() }
    }

    pub open spec fn is_occupied(self, spot: ParkingSpot) -> bool {
        self.occupants.contains_key(spot)
    }

    pub open spec fn is_reserved(self, spot: ParkingSpot) -> bool {
        self.reserved.contains(spot)
    }

    /// A spot is free when it is neither occupied nor reserved.
    pub open spec fn is_free(self, spot: ParkingSpot) -> bool {
        !self.occupants.contains_key(spot) && !self.reserved.contains(spot)
    }

    /// The ledger after a free spot was reserved.
    pub open spec fn reserve(self, spot: ParkingSpot) -> LedgerView {
        LedgerView { reserved: self.reserved.insert(spot), ..self }
    }

    /// The ledger after a reservation was given up.
    pub open spec fn cancel_reservation(self, spot: ParkingSpot) -> LedgerView {
        LedgerView { reserved: self.reserved.remove(spot), ..self }
    }

    /// A car may be parked in the spot that was reserved for it, if nothing stands
    /// there and the car stands nowhere.
    pub open spec fn can_add(self, p: ParkedCar) -> bool {
        &&& self.reserved.contains(p.spot)
        &&& !self.occupants.contains_key(p.spot)
        &&& !self.parked_cars.contains_key(p.vehicle.id)
    }

    /// The ledger after the car arrived in its spot.
    pub open spec fn add_parked(self, p: ParkedCar) -> LedgerView {
        LedgerView {
            parked_cars: self.parked_cars.insert(p.vehicle.id, p),
            occupants: self.occupants.insert(p.spot, p.vehicle.id),
            reserved: self.reserved.remove(p.spot),
        }
    }

    /// A car can leave the spot in which it stands.
    pub open spec fn can_remove(self, p: ParkedCar) -> bool {
        &&& self.parked_cars.contains_key(p.vehicle.id)
        &&& self.parked_cars[p.vehicle.id].spot == p.spot
    }

    /// The ledger after the car left its spot.
    pub open spec fn remove_parked(self, p: ParkedCar) -> LedgerView {
        LedgerView {
            parked_cars: self.parked_cars.remove(p.vehicle.id),
            occupants: self.occupants.remove(p.spot),
            reserved: self.reserved,
        }
    }

    /// The ledger after the car in the spot was taken out of it.
    pub open spec fn evict(self, spot: ParkingSpot) -> LedgerView {
        LedgerView {
            parked_cars: self.parked_cars.remove(self.occupants[spot]),
            occupants: self.occupants.remove(spot),
            reserved: self.reserved,
        }
    }

    /// The ledger after the spots changed: only the spots of `available` are left,
    /// so every car in another spot is gone, and every reservation of another
    /// spot with it.
    pub open spec fn restrict_to(self, available: Set<ParkingSpot>) -> LedgerView {
        LedgerView {
            parked_cars: self.parked_cars.restrict(
                Set::new(
                    |car: CarID|
                        self.parked_cars.contains_key(car) && available.contains(
                            self.parked_cars[car].spot,
                        ),
                ),
            ),
            occupants: self.occupants.restrict(available),
            reserved: self.reserved.intersect(available),
        }
    }
}

impl View for Ledger {
    type V = LedgerView;

    closed spec fn view(&self) -> LedgerView {
        LedgerView {
            parked_cars: Map::new(
                |car: CarID| self.parked_cars@.contains_key(car.0),
                |car: CarID| self.parked_cars@[car.0],
            ),
            occupants: Map::new(
                |spot: ParkingSpot| self.occupants@.contains_key(spot.spec_key()),
                |spot: ParkingSpot| CarID(self.occupants@[spot.spec_key()]),
            ),
            reserved: Set::new(|spot: ParkingSpot| self.reserved_spots@.contains(spot.spec_key())),
        }
    }
}

impl Ledger {
    /// The tables hold keys of spots only, and what they say is consistent.
    pub closed spec fn wf(&self) -> bool {
        &&& forall|k: SpotKey| #[trigger]
            self.occupants@.contains_key(k) ==> ParkingSpot::key_valid(k)
        &&& forall|k: SpotKey| #[trigger]
            self.reserved_spots@.contains(k) ==> ParkingSpot::key_valid(k)
        &&& self@.wf()
    }

    /// A well-formed ledger has a well-formed view.
    pub proof fn lemma_view_wf(&self)
        requires
            self.wf(),
        ensures
            self@.wf(),
    {
    }

    /// A ledger in which every spot is free.
    pub fn new() -> (ledger: Ledger)
        ensures
            ledger.wf(),
            ledger@ == LedgerView::empty(),
    {
        let ledger = Ledger {
            parked_cars: BTreeMap::new(),
            occupants: BTreeMap::new(),
            reserved_spots: BTreeSet::new(),
        };
        proof {
            assert(ledger@.parked_cars =~= Map::empty());
            assert(ledger@.occupants =~= Map::empty());
            assert(ledger@.reserved =~= Set::empty());
        }
        ledger
    }

    /// Whether the spot is neither occupied nor reserved.
    pub fn is_free(&self, spot: ParkingSpot) -> (free: bool)
        ensures
            free == self@.is_free(spot),
    {
        let k = spot.key();
        !self.occupants.contains_key(&k) && !self.reserved_spots.contains(&k)
    }

    /// Whether the spot is claimed but not yet occupied.
    pub fn is_reserved(&self, spot: ParkingSpot) -> (reserved: bool)
        ensures
            reserved == self@.is_reserved(spot),
    {
        let k = spot.key();
        self.reserved_spots.contains(&k)
    }

    /// Claims a free spot.
    pub fn reserve_spot(&mut self, spot: ParkingSpot)
        requires
            old(self).wf(),
            old(self)@.is_free(spot),
        ensures
            final(self).wf(),
            final(self)@ == old(self)@.reserve(spot),
    {
        self.reserved_spots.insert(spot.key());
        proof {
            assert(self@.reserved =~= old(self)@.reserve(spot).reserved);
            assert(self@.parked_cars =~= old(self)@.parked_cars);
            assert(self@.occupants =~= old(self)@.occupants);
        }
    }

    /// Gives a reservation up. Nothing changes if the spot was not reserved.
    pub fn cancel_reservation(&mut self, spot: ParkingSpot)
        requires
            old(self).wf(),
        ensures
            final(self).wf(),
            final(self)@ == old(self)@.cancel_reservation(spot),
    {
        let k = spot.key();
        self.reserved_spots.remove(&k);
        proof {
            assert(self@.reserved =~= old(self)@.cancel_reservation(spot).reserved);
            assert(self@.parked_cars =~= old(self)@.parked_cars);
            assert(self@.occupants =~= old(self)@.occupants);
        }
    }

    /// Records that a car has arrived in the spot reserved for it.
    pub fn add_parked_car(&mut self, p: ParkedCar)
        requires
            old(self).wf(),
            old(self)@.can_add(p),
        ensures
            final(self).wf(),
            final(self)@ == old(self)@.add_parked(p),
    {
        let k = p.spot.key();
        self.reserved_spots.remove(&k);
        self.occupants.insert(k, p.vehicle.id.0);
        self.parked_cars.insert(p.vehicle.id.0, p);
        proof {
            let goal = old(self)@.add_parked(p);
            assert(self@.reserved =~= goal.reserved);
            assert(self@.parked_cars =~= goal.parked_cars);
            assert(self@.occupants =~= goal.occupants);
            lemma_add_parked_wf(old(self)@, p);
        }
    }

    /// Records that a car has left its spot.
    pub fn remove_parked_car(&mut self, p: ParkedCar)
        requires
            old(self).wf(),
            old(self)@.can_remove(p),
        ensures
            final(self).wf(),
            final(self)@ == old(self)@.remove_parked(p),
    {
        let k = p.spot.key();
        self.parked_cars.remove(&p.vehicle.id.0);
        self.occupants.remove(&k);
        proof {
            let goal = old(self)@.remove_parked(p);
            assert(self@.reserved =~= goal.reserved);
            assert(self@.parked_cars =~= goal.parked_cars);
            assert(self@.occupants =~= goal.occupants);
            lemma_remove_parked_wf(old(self)@, p);
        }
    }

    /// Takes the car that stands in a spot out of the ledger and hands it back.
    pub fn evict(&mut self, spot: ParkingSpot) -> (p: ParkedCar)
        requires
            old(self).wf(),
            old(self)@.is_occupied(spot),
        ensures
            final(self).wf(),
            final(self)@ == old(self)@.evict(spot),
            p == old(self)@.parked_cars[old(self)@.occupants[spot]],
            p.spot == spot,
    {
        let k = spot.key();
        let car = self.occupants.remove(&k).unwrap();
        let p = self.parked_cars.remove(&car).unwrap();
        proof {
            let goal = old(self)@.evict(spot);
            assert(old(self)@.occupants[spot] == CarID(car));
            assert(self@.reserved =~= goal.reserved);
            assert(self@.parked_cars =~= goal.parked_cars);
            assert(self@.occupants =~= goal.occupants);
            assert(old(self)@.can_remove(p));
            assert(goal == old(self)@.remove_parked(p));
            lemma_remove_parked_wf(old(self)@, p);
        }
        p
    }

    /// The car that stands in the spot, if one does.
    pub fn get_car_at_spot(&self, spot: ParkingSpot) -> (res: Option<&ParkedCar>)
        requires
            self.wf(),
        ensures
            res is Some <==> self@.is_occupied(spot),
            res matches Some(p) ==> *p == self@.parked_cars[self@.occupants[spot]] && p.spot
                == spot,
    {
        let k = spot.key();
        match self.occupants.get(&k) {
            Some(car) => {
                proof {
                    assert(self@.occupants.contains_key(spot));
                    assert(self@.occupants[spot] == CarID(*car));
                }
                self.parked_cars.get(car)
            },
            None => None,
        }
    }

    /// The numbers of the parked cars, in rising order.
    pub fn car_ids(&self) -> (ids: Vec<usize>)
        ensures
            strictly_ascending(ids@),
            forall|id: usize| ids@.contains(id) <==> self@.parked_cars.contains_key(CarID(id)),
    {
        keys_in_order(&self.parked_cars)
    }

    /// The record of a parked car.
    pub fn lookup_parked_car(&self, id: CarID) -> (res: Option<&ParkedCar>)
        ensures
            res is Some <==> self@.parked_cars.contains_key(id),
            res matches Some(p) ==> *p == self@.parked_cars[id],
    {
        self.parked_cars.get(&id.0)
    }

    /// The owner of a parked car, if the car is parked and has one.
    pub fn get_owner_of_car(&self, id: CarID) -> (owner: Option<PersonID>)
        ensures
            owner == (if self@.parked_cars.contains_key(id) {
                self@.parked_cars[id].vehicle.owner
            } else {
                None
            }),
    {
        match self.parked_cars.get(&id.0) {
            Some(p) => p.vehicle.owner,
            None => None,
        }
    }
}

/// Reserving a free spot keeps the ledger consistent.
pub proof fn lemma_reserve_wf(s: LedgerView, spot: ParkingSpot)
    requires
        s.wf(),
        s.is_free(spot),
    ensures
        s.reserve(spot).wf(),
{
}

/// Parking a car in the spot reserved for it keeps the ledger consistent.
pub proof fn lemma_add_parked_wf(s: LedgerView, p: ParkedCar)
    requires
        s.wf(),
        s.can_add(p),
    ensures
        s.add_parked(p).wf(),
{
    let t = s.add_parked(p);
    assert forall|spot: ParkingSpot| #[trigger] t.occupants.contains_key(spot) implies {
        &&& !t.reserved.contains(spot)
        &&& t.parked_cars.contains_key(t.occupants[spot])
        &&& t.parked_cars[t.occupants[spot]].spot == spot
    } by {
        if spot != p.spot {
            assert(s.occupants.contains_key(spot));
        }
    }
    assert forall|car: CarID| #[trigger] t.parked_cars.contains_key(car) implies {
        &&& t.parked_cars[car].vehicle.id == car
        &&& t.occupants.contains_key(t.parked_cars[car].spot)
        &&& t.occupants[t.parked_cars[car].spot] == car
    } by {
        if car != p.vehicle.id {
            assert(s.parked_cars.contains_key(car));
        }
    }
}

/// Taking a car out of its spot keeps the ledger consistent.
pub proof fn lemma_remove_parked_wf(s: LedgerView, p: ParkedCar)
    requires
        s.wf(),
        s.can_remove(p),
    ensures
        s.remove_parked(p).wf(),
        s.occupants.contains_key(p.spot),
        s.occupants[p.spot] == p.vehicle.id,
{
    let t = s.remove_parked(p);
    assert(s.parked_cars.contains_key(p.vehicle.id));
    assert forall|spot: ParkingSpot| #[trigger] t.occupants.contains_key(spot) implies {
        &&& !t.reserved.contains(spot)
        &&& t.parked_cars.contains_key(t.occupants[spot])
        &&& t.parked_cars[t.occupants[spot]].spot == spot
    } by {
        assert(s.occupants.contains_key(spot));
    }
    assert forall|car: CarID| #[trigger] t.parked_cars.contains_key(car) implies {
        &&& t.parked_cars[car].vehicle.id == car
        &&& t.occupants.contains_key(t.parked_cars[car].spot)
        &&& t.occupants[t.parked_cars[car].spot] == car
    } by {
        assert(s.parked_cars.contains_key(car));
    }
}

/// A spot that has been reserved is not free, and a spot that is not free stays
/// so through every reservation, arrival and departure that is not the departure
/// of the car in that very spot. The car that arrived in a reserved spot can
/// leave it, and the spot is free once it has left.
pub proof fn lemma_taken_until_released(
    s: LedgerView,
    spot: ParkingSpot,
    other: ParkingSpot,
    p: ParkedCar,
)
    requires
        s.wf(),
    ensures
        s.is_free(spot) ==> !s.reserve(spot).is_free(spot),
        !s.is_free(spot) && s.is_free(other) ==> !s.reserve(other).is_free(spot),
        !s.is_free(spot) && s.can_add(p) ==> !s.add_parked(p).is_free(spot),
        !s.is_free(spot) && s.can_remove(p) && p.spot != spot ==> !s.remove_parked(p).is_free(
            spot,
        ),
        s.can_add(p) ==> s.add_parked(p).can_remove(p) && s.add_parked(p).remove_parked(
            p,
        ).is_free(p.spot),
{
}

/// When the spots change, a spot that is not free and is still there stays taken,
/// and every spot that is gone is free: its car was evicted, its reservation
/// dropped.
pub proof fn lemma_taken_until_evicted(
    s: LedgerView,
    available: Set<ParkingSpot>,
    spot: ParkingSpot,
)
    requires
        s.wf(),
    ensures
        s.restrict_to(available).wf(),
        available.contains(spot) ==> s.restrict_to(available).is_free(spot) == s.is_free(spot),
        !available.contains(spot) ==> s.restrict_to(available).is_free(spot),
{
    let t = s.restrict_to(available);
    assert forall|sp: ParkingSpot| #[trigger] t.occupants.contains_key(sp) implies {
        &&& !t.reserved.contains(sp)
        &&& t.parked_cars.contains_key(t.occupants[sp])
        &&& t.parked_cars[t.occupants[sp]].spot == sp
    } by {
        assert(s.occupants.contains_key(sp));
    }
    assert forall|car: CarID| #[trigger] t.parked_cars.contains_key(car) implies {
        &&& t.parked_cars[car].vehicle.id == car
        &&& t.occupants.contains_key(t.parked_cars[car].spot)
        &&& t.occupants[t.parked_cars[car].spot] == car
    } by {
        assert(s.parked_cars.contains_key(car));
    }
}

/// No second car can arrive in an occupied spot: once a car stands in a spot, no
/// arrival there is admitted, whatever else is reserved, parked or removed, until
/// that car leaves or is evicted.
pub proof fn lemma_occupancy_unique(
    s: LedgerView,
    p: ParkedCar,
    q: ParkedCar,
    other: ParkingSpot,
    r: ParkedCar,
)
    requires
        s.wf(),
    ensures
        s.can_add(p) && q.spot == p.spot ==> !s.add_parked(p).can_add(q),
        s.is_occupied(q.spot) ==> !s.can_add(q),
        s.is_occupied(q.spot) ==> !s.is_free(q.spot),
        s.is_occupied(q.spot) && s.is_free(other) ==> s.reserve(other).is_occupied(q.spot),
        s.is_occupied(q.spot) && s.can_add(r) ==> s.add_parked(r).is_occupied(q.spot),
        s.is_occupied(q.spot) && s.can_remove(r) && r.spot != q.spot ==> s.remove_parked(
            r,
        ).is_occupied(q.spot),
{
}

} // verus!
