//! The state of parking in a simulation: the inventory of a network together
//! with the ledger of who stands where, and the events that arrivals and
//! departures leave behind.

use crate::ids::{CarID, PersonID};
use crate::inventory::{Inventory, InventoryView, spec_inventory};
use crate::ledger::{Ledger, LedgerView};
use crate::network::Network;
use crate::ledger::lemma_taken_until_evicted;
use crate::spot::{ParkingSpot, ascending, lemma_spot_order, lists};
use crate::vehicle::{Event, ParkedCar};
use vstd::prelude::*;

verus! {

/// The state of parking.
#[derive(Clone, Debug)]
pub struct ParkingSimState {
    inventory: Inventory,
    ledger: Ledger,
    events: Vec<Event>,
}

/// The state of parking as contracts speak of it.
pub struct ParkingView {
    pub inventory: InventoryView,
    pub ledger: LedgerView,
    /// The events since they were last collected, oldest first.
    pub events: Seq<Event>,
}

impl ParkingView {
    /// The ledger is consistent, and every spot that is not free exists.
    pub open spec fn wf(self) -> bool {
        &&& self.ledger.wf()
        &&& forall|spot: ParkingSpot|
            !(#[trigger] self.ledger.is_free(spot)) ==> self.inventory.has_spot(spot)
    }

    pub open spec fn is_free(self, spot: ParkingSpot) -> bool {
        self.ledger.is_free(spot)
    }

    pub open spec fn has_spot(self, spot: ParkingSpot) -> bool {
        self.inventory.has_spot(spot)
    }

    /// The state after a free spot was reserved.
    pub open spec fn reserve(self, spot: ParkingSpot) -> ParkingView {
        ParkingView { ledger: self.ledger.reserve(spot), ..self }
    }

    /// The state after a reservation was given up.
    pub open spec fn cancel_reservation(self, spot: ParkingSpot) -> ParkingView {
        ParkingView { ledger: self.ledger.cancel_reservation(spot), ..self }
    }

    /// The state after a car arrived in its spot.
    pub open spec fn add_parked(self, p: ParkedCar) -> ParkingView {
        ParkingView {
            ledger: self.ledger.add_parked(p),
            events: self.events.push(Event::CarReachedParkingSpot(p.vehicle.id, p.spot)),
            ..self
        }
    }

    /// The state after a car left its spot.
    pub open spec fn remove_parked(self, p: ParkedCar) -> ParkingView {
        ParkingView {
            ledger: self.ledger.remove_parked(p),
            events: self.events.push(Event::CarLeftParkingSpot(p.vehicle.id, p.spot)),
            ..self
        }
    }
}

/// The spots in which the cars of a list stand.
pub open spec fn car_spots(cars: Seq<ParkedCar>) -> Seq<ParkingSpot> {
    Seq::new(cars.len(), |i: int| cars[i].spot)
}

impl View for ParkingSimState {
    type V = ParkingView;

    closed spec fn view(&self) -> ParkingView {
        ParkingView { inventory: self.inventory@, ledger: self.ledger@, events: self.events@ }
    }
}

impl ParkingSimState {
    /// The state is consistent.
    pub closed spec fn wf(&self) -> bool {
        &&& self.ledger.wf()
        &&& self@.wf()
    }

    /// The state holds the spots of this network.
    pub open spec fn consistent_with(&self, net: &Network) -> bool {
        self@.inventory == spec_inventory(net)
    }

    /// A consistent state has a consistent view.
    pub proof fn lemma_view_wf(&self)
        requires
            self.wf(),
        ensures
            self@.wf(),
    {
    }

    /// The state of a network in which nobody has parked yet. Spots behind a
    /// blackhole are not part of it.
    pub fn new(net: &Network) -> (sim: ParkingSimState)
        requires
            net.wf(),
        ensures
            sim.wf(),
            sim.consistent_with(net),
            sim@.ledger == LedgerView::empty(),
            sim@.events == Seq::<Event>::empty(),
    {
        ParkingSimState { inventory: Inventory::new(net), ledger: Ledger::new(), events: Vec::new() }
    }

    /// Puts a state together from its parts.
    pub fn from_parts(inventory: Inventory, ledger: Ledger, events: Vec<Event>) -> (sim:
        ParkingSimState)
        requires
            ledger.wf(),
            forall|spot: ParkingSpot|
                !(#[trigger] ledger@.is_free(spot)) ==> inventory@.has_spot(spot),
        ensures
            sim.wf(),
            sim@ == (ParkingView { inventory: inventory@, ledger: ledger@, events: events@ }),
    {
        proof {
            ledger.lemma_view_wf();
        }
        ParkingSimState { inventory, ledger, events }
    }

    /// The events noted since they were last collected, oldest first.
    pub fn events(&self) -> (events: &Vec<Event>)
        ensures
            events@ == self@.events,
    {
        &self.events
    }

    /// The inventory of spots.
    pub fn inventory(&self) -> (inv: &Inventory)
        ensures
            inv@ == self@.inventory,
    {
        &self.inventory
    }

    /// The ledger of occupancy and reservation.
    pub fn ledger(&self) -> (ledger: &Ledger)
        ensures
            ledger@ == self@.ledger,
            self.wf() ==> ledger.wf(),
    {
        &self.ledger
    }

    /// Whether the spot is neither occupied nor reserved.
    pub fn is_free(&self, spot: ParkingSpot) -> (free: bool)
        ensures
            free == self@.is_free(spot),
    {
        self.ledger.is_free(spot)
    }

    /// Whether the spot exists.
    pub fn has_spot(&self, spot: ParkingSpot) -> (b: bool)
        ensures
            b == self@.has_spot(spot),
    {
        self.inventory.has_spot(spot)
    }

    /// Claims a free spot for a driver who is on the way to it.
    pub fn reserve_spot(&mut self, spot: ParkingSpot)
        requires
            old(self).wf(),
            old(self)@.is_free(spot),
            old(self)@.has_spot(spot),
        ensures
            final(self).wf(),
            final(self)@ == old(self)@.reserve(spot),
            !final(self)@.is_free(spot),
    {
        self.ledger.reserve_spot(spot);
        proof {
            assert forall|sp: ParkingSpot| !(#[trigger] self@.ledger.is_free(sp)) implies self@.inventory.has_spot(
                sp,
            ) by {
                if sp != spot {
                    assert(!old(self)@.ledger.is_free(sp));
                }
            }
        }
    }

    /// Gives up the reservation of a spot, for a driver who will not arrive.
    /// Nothing changes if the spot was not reserved.
    pub fn cancel_reservation(&mut self, spot: ParkingSpot)
        requires
            old(self).wf(),
        ensures
            final(self).wf(),
            final(self)@ == old(self)@.cancel_reservation(spot),
    {
        self.ledger.cancel_reservation(spot);
        proof {
            assert forall|sp: ParkingSpot| !(#[trigger] self@.ledger.is_free(sp)) implies self@.inventory.has_spot(
                sp,
            ) by {
                assert(!old(self)@.ledger.is_free(sp));
            }
        }
    }

    /// Records that a car has arrived in the spot reserved for it, and notes the
    /// event.
    pub fn add_parked_car(&mut self, p: ParkedCar)
        requires
            old(self).wf(),
            old(self)@.ledger.can_add(p),
        ensures
            final(self).wf(),
            final(self)@ == old(self)@.add_parked(p),
            !final(self)@.is_free(p.spot),
    {
        self.events.push(Event::CarReachedParkingSpot(p.vehicle.id, p.spot));
        self.ledger.add_parked_car(p);
        proof {
            assert forall|sp: ParkingSpot| !(#[trigger] self@.ledger.is_free(sp)) implies self@.inventory.has_spot(
                sp,
            ) by {
                assert(!old(self)@.ledger.is_free(sp));
            }
        }
    }

    /// Records that a car has left its spot, and notes the event.
    pub fn remove_parked_car(&mut self, p: ParkedCar)
        requires
            old(self).wf(),
            old(self)@.ledger.can_remove(p),
        ensures
            final(self).wf(),
            final(self)@ == old(self)@.remove_parked(p),
            final(self)@.is_free(p.spot),
    {
        proof {
            crate::ledger::lemma_remove_parked_wf(self@.ledger, p);
        }
        self.ledger.remove_parked_car(p);
        self.events.push(Event::CarLeftParkingSpot(p.vehicle.id, p.spot));
        proof {
            assert forall|sp: ParkingSpot| !(#[trigger] self@.ledger.is_free(sp)) implies self@.inventory.has_spot(
                sp,
            ) by {
                assert(!old(self)@.ledger.is_free(sp));
            }
        }
    }

    /// Hands over the events noted since the last call, oldest first, and forgets
    /// them.
    pub fn collect_events(&mut self) -> (events: Vec<Event>)
        requires
            old(self).wf(),
        ensures
            final(self).wf(),
            events@ == old(self)@.events,
            final(self)@ == (ParkingView { events: Seq::empty(), ..old(self)@ }),
    {
        let mut events: Vec<Event> = Vec::new();
        std::mem::swap(&mut self.events, &mut events);
        events
    }

    /// The car that stands in the spot, if one does.
    pub fn get_car_at_spot(&self, spot: ParkingSpot) -> (res: Option<&ParkedCar>)
        requires
            self.wf(),
        ensures
            res is Some <==> self@.ledger.is_occupied(spot),
            res matches Some(p) ==> *p == self@.ledger.parked_cars[self@.ledger.occupants[spot]]
                && p.spot == spot,
    {
        self.ledger.get_car_at_spot(spot)
    }

    /// The owner of a parked car, if the car is parked and has one.
    pub fn get_owner_of_car(&self, id: CarID) -> (owner: Option<PersonID>)
        ensures
            owner == (if self@.ledger.parked_cars.contains_key(id) {
                self@.ledger.parked_cars[id].vehicle.owner
            } else {
                None
            }),
    {
        self.ledger.get_owner_of_car(id)
    }

    /// The record of a parked car.
    pub fn lookup_parked_car(&self, id: CarID) -> (res: Option<&ParkedCar>)
        ensures
            res is Some <==> self@.ledger.parked_cars.contains_key(id),
            res matches Some(p) ==> *p == self@.ledger.parked_cars[id],
    {
        self.ledger.lookup_parked_car(id)
    }
    /// Takes over the spots of a changed network. Every car that stood in a spot
    /// which is gone is taken out of the ledger and handed back, in the order of
    /// the spots; the caller has to find it another place. Reservations of spots
    /// which are gone are dropped.
    pub fn handle_live_edits(&mut self, net: &Network) -> (evicted: Vec<ParkedCar>)
        requires
            old(self).wf(),
            net.wf(),
        ensures
            final(self).wf(),
            final(self).consistent_with(net),
            final(self)@.ledger == old(self)@.ledger.restrict_to(spec_inventory(net).spots()),
            final(self)@.events == old(self)@.events,
            lists(
                car_spots(evicted@),
                Set::new(
                    |spot: ParkingSpot|
                        old(self)@.ledger.is_occupied(spot) && !spec_inventory(net).has_spot(spot),
                ),
            ),
            forall|i: int|
                0 <= i < evicted@.len() ==> #[trigger] evicted@[i] == old(
                    self,
                )@.ledger.parked_cars[old(self)@.ledger.occupants[evicted@[i].spot]],
    {
        let mut taken: Vec<ParkingSpot> = Vec::new();
        self.push_spots_of_kind(&mut taken, 0, false);
        self.push_spots_of_kind(&mut taken, 1, false);
        self.push_spots_of_kind(&mut taken, 2, false);
        let new_inventory = Inventory::new(net);
        let ghost before = self@.ledger;
        let ghost available = spec_inventory(net).spots();
        proof {
            assert forall|spot: ParkingSpot|
                #![trigger taken@.contains(spot)]
                taken@.contains(spot) <==> !before.is_free(spot) by {
                crate::spot::lemma_spot_key_injective(spot, spot);
            }
            assert(before.restrict_to(Set::new(|s: ParkingSpot| true)).parked_cars
                =~= before.parked_cars);
            assert(before.restrict_to(Set::new(|s: ParkingSpot| true)).occupants
                =~= before.occupants);
            assert(before.restrict_to(Set::new(|s: ParkingSpot| true)).reserved
                =~= before.reserved);
        }
        let mut evicted: Vec<ParkedCar> = Vec::new();
        let ghost mut kept: Set<ParkingSpot> = Set::new(|s: ParkingSpot| true);
        let mut i: usize = 0;
        while i < taken.len()
            invariant
                i <= taken@.len(),
                new_inventory@ == spec_inventory(net),
                available == spec_inventory(net).spots(),
                before.wf(),
                self.ledger.wf(),
                self.events@ == old(self).events@,
                ascending(taken@),
                forall|spot: ParkingSpot|
                    #![trigger taken@.contains(spot)]
                    taken@.contains(spot) <==> !before.is_free(spot),
                forall|spot: ParkingSpot|
                    #![trigger kept.contains(spot)]
                    kept.contains(spot) <==> available.contains(spot) || !(exists|j: int|
                        0 <= j < i && taken@[j] == spot),
                self.ledger@ == before.restrict_to(kept),
                ascending(car_spots(evicted@)),
                forall|j: int|
                    0 <= j < evicted@.len() ==> #[trigger] evicted@[j]
                        == before.parked_cars[before.occupants[evicted@[j].spot]]
                        && before.is_occupied(evicted@[j].spot) && (i < taken@.len()
                        ==> evicted@[j].spot.spec_lt(taken@[i as int])),
                forall|spot: ParkingSpot|
                    #![trigger car_spots(evicted@).contains(spot)]
                    car_spots(evicted@).contains(spot) <==> before.is_occupied(spot)
                        && !available.contains(spot) && (exists|j: int|
                        0 <= j < i && taken@[j] == spot),
            decreases taken@.len() - i,
        {
            let spot = taken[i];
            let ghost kept_before = kept;
            let ghost evicted_before = evicted@;
            let ghost ledger_before = self.ledger@;
            proof {
                assert(taken@.contains(spot));
                assert forall|j: int| 0 <= j < i implies taken@[j] != spot by {
                    assert(taken@[j].spec_lt(taken@[i as int]));
                }
                assert(kept.contains(spot));
                if i + 1 < taken@.len() {
                    assert(taken@[i as int].spec_lt(taken@[i + 1]));
                }
            }
            if !new_inventory.has_spot(spot) {
                proof {
                    kept = kept.remove(spot);
                }
                if self.ledger.is_reserved(spot) {
                    self.ledger.cancel_reservation(spot);
                    proof {
                        let goal = before.restrict_to(kept);
                        assert(self.ledger@.reserved =~= goal.reserved);
                        assert(self.ledger@.occupants =~= goal.occupants);
                        assert(self.ledger@.parked_cars =~= goal.parked_cars);
                    }
                } else {
                    let p = self.ledger.evict(spot);
                    evicted.push(p);
                    proof {
                        let goal = before.restrict_to(kept);
                        assert(before.occupants.contains_key(spot));
                        assert(self.ledger@.reserved =~= goal.reserved);
                        assert(self.ledger@.occupants =~= goal.occupants);
                        assert forall|car: CarID|
                            self.ledger@.parked_cars.contains_key(car)
                                <==> goal.parked_cars.contains_key(car) by {
                            if before.parked_cars.contains_key(car) {
                                assert(before.occupants.contains_key(before.parked_cars[car].spot));
                            }
                        }
                        assert(self.ledger@.parked_cars =~= goal.parked_cars);
                        assert(car_spots(evicted@) =~= car_spots(evicted_before).push(spot));
                        assert forall|a: int, b: int|
                            0 <= a < b < car_spots(evicted@).len() implies (
                        #[trigger] car_spots(evicted@)[a]).spec_lt(
                            #[trigger] car_spots(evicted@)[b],
                        ) by {
                            if b < evicted_before.len() {
                                assert(car_spots(evicted_before)[a].spec_lt(
                                    car_spots(evicted_before)[b],
                                ));
                            } else {
                                assert(evicted_before[a].spot.spec_lt(taken@[i as int]));
                            }
                        }
                    }
                }
            }
            proof {
                assert forall|s: ParkingSpot|
                    #![trigger kept.contains(s)]
                    kept.contains(s) <==> available.contains(s) || !(exists|j: int|
                        0 <= j < i + 1 && taken@[j] == s) by {
                    if s == spot {
                        assert(taken@[i as int] == s);
                    } else {
                        if exists|j: int| 0 <= j < i + 1 && taken@[j] == s {
                            let j = choose|j: int| 0 <= j < i + 1 && taken@[j] == s;
                            assert(0 <= j < i && taken@[j] == s);
                        }
                    }
                }
                assert forall|j: int| 0 <= j < evicted@.len() implies #[trigger] evicted@[j]
                    == before.parked_cars[before.occupants[evicted@[j].spot]]
                    && before.is_occupied(evicted@[j].spot) && (i + 1 < taken@.len()
                    ==> evicted@[j].spot.spec_lt(taken@[i + 1])) by {
                    if j < evicted_before.len() {
                        assert(evicted@[j] == evicted_before[j]);
                        if i + 1 < taken@.len() {
                            lemma_spot_order(evicted@[j].spot, taken@[i as int], taken@[i + 1]);
                        }
                    }
                }
                assert forall|s: ParkingSpot|
                    #![trigger car_spots(evicted@).contains(s)]
                    car_spots(evicted@).contains(s) <==> before.is_occupied(s)
                        && !available.contains(s) && (exists|j: int|
                        0 <= j < i + 1 && taken@[j] == s) by {
                    assert(car_spots(evicted_before).contains(s) <==> before.is_occupied(s)
                        && !available.contains(s) && (exists|j: int|
                        0 <= j < i && taken@[j] == s));
                    if evicted@.len() > evicted_before.len() {
                        vstd::seq_lib::lemma_seq_contains_after_push(
                            car_spots(evicted_before),
                            spot,
                            s,
                        );
                    }
                    if s == spot {
                        assert(taken@[i as int] == s);
                    } else {
                        if exists|j: int| 0 <= j < i + 1 && taken@[j] == s {
                            let j = choose|j: int| 0 <= j < i + 1 && taken@[j] == s;
                            assert(0 <= j < i && taken@[j] == s);
                        }
                    }
                }
            }
            i += 1;
        }
        self.inventory = new_inventory;
        proof {
            let goal = before.restrict_to(available);
            assert forall|s: ParkingSpot| !before.is_free(s) implies (kept.contains(s)
                <==> available.contains(s)) by {
                assert(taken@.contains(s));
                let j = choose|j: int| 0 <= j < taken@.len() && taken@[j] == s;
                assert(0 <= j < i && taken@[j] == s);
            }
            assert forall|s: ParkingSpot|
                self.ledger@.reserved.contains(s) <==> goal.reserved.contains(s) by {
                if before.reserved.contains(s) {
                    assert(!before.is_free(s));
                }
            }
            assert(self.ledger@.reserved =~= goal.reserved);
            assert forall|s: ParkingSpot|
                self.ledger@.occupants.contains_key(s) <==> goal.occupants.contains_key(s) by {
                if before.occupants.contains_key(s) {
                    assert(!before.is_free(s));
                }
            }
            assert(self.ledger@.occupants =~= goal.occupants);
            assert forall|car: CarID|
                self.ledger@.parked_cars.contains_key(car) <==> goal.parked_cars.contains_key(
                    car,
                ) by {
                if before.parked_cars.contains_key(car) {
                    assert(before.occupants.contains_key(before.parked_cars[car].spot));
                    assert(!before.is_free(before.parked_cars[car].spot));
                }
            }
            assert(self.ledger@.parked_cars =~= goal.parked_cars);
            assert forall|s: ParkingSpot| !(#[trigger] self@.ledger.is_free(s)) implies self@.inventory.has_spot(
                s,
            ) by {
                lemma_taken_until_evicted(before, available, s);
            }
            assert forall|s: ParkingSpot|
                car_spots(evicted@).contains(s) <==> before.is_occupied(s)
                    && !spec_inventory(net).has_spot(s) by {
                if before.is_occupied(s) {
                    assert(!before.is_free(s));
                }
            }
        }
        evicted
    }
}

} // verus!
