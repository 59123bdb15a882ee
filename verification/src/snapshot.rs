//! Snapshots of the ledger, to save a simulation and take it up again.
//!
//! A snapshot holds the parked cars, the reserved spots and the pending events
//! as plain lists in a fixed order, and the last spot of every lane, building and
//! lot, which says which spots there are. Together with the network it brings
//! back the state it was taken of: the inventory is taken anew from the network,
//! and must offer the spots that the snapshot knows.

use crate::ids::CarID;
use crate::inventory::{Inventory, spec_inventory};
use crate::ledger::Ledger;
use crate::listing::{lemma_last_spots_determine_spots, same_spots};
use crate::network::Network;
use crate::spot::{
    ParkingSpot, ascending, lemma_lists_unique, lemma_spot_key_injective, lemma_spot_order, lists,
};
use crate::state::{ParkingSimState, ParkingView};
use crate::vehicle::{Event, ParkedCar};
use vstd::prelude::*;

verus! {

/// What is kept of a state.
#[derive(Clone, Debug)]
pub struct Snapshot {
    /// For every lane, building and lot that has spots, its spot of the highest
    /// index, in the order of spots.
    pub last_spots: Vec<ParkingSpot>,
    /// The parked cars, by rising number.
    pub parked_cars: Vec<ParkedCar>,
    /// The reserved spots, in the order of spots.
    pub reserved_spots: Vec<ParkingSpot>,
    /// The events not yet collected, oldest first.
    pub events: Vec<Event>,
}

/// The numbers of the cars rise strictly.
pub open spec fn cars_rising(cars: Seq<ParkedCar>) -> bool {
    forall|i: int, j: int|
        0 <= i < j < cars.len() ==> (#[trigger] cars[i]).vehicle.id.0 < (
        #[trigger] cars[j]).vehicle.id.0
}

/// One of the first `n` cars has the number.
pub open spec fn car_listed(cars: Seq<ParkedCar>, n: int, id: CarID) -> bool {
    exists|j: int| 0 <= j < n && (#[trigger] cars[j]).vehicle.id == id
}

/// One of the first `n` cars stands in the spot.
pub open spec fn spot_listed(cars: Seq<ParkedCar>, n: int, spot: ParkingSpot) -> bool {
    exists|j: int| 0 <= j < n && (#[trigger] cars[j]).spot == spot
}

impl Snapshot {
    /// The snapshot is one of this state: it lists the last spots of its
    /// inventory, the cars that are parked in it, the spots that are reserved in
    /// it, and its events.
    pub open spec fn encodes(&self, v: ParkingView) -> bool {
        &&& lists(self.last_spots@, v.inventory.last_spots())
        &&& cars_rising(self.parked_cars@)
        &&& forall|i: int|
            0 <= i < self.parked_cars@.len() ==> v.ledger.parked_cars.contains_key(
                (#[trigger] self.parked_cars@[i]).vehicle.id,
            ) && v.ledger.parked_cars[self.parked_cars@[i].vehicle.id] == self.parked_cars@[i]
        &&& forall|id: CarID| #[trigger]
            v.ledger.parked_cars.contains_key(id) ==> car_listed(
                self.parked_cars@,
                self.parked_cars@.len() as int,
                id,
            )
        &&& lists(self.reserved_spots@, v.ledger.reserved)
        &&& self.events@ == v.events
    }
}

/// A snapshot is the snapshot of one state only: two consistent states with the
/// same inventory and the same snapshot are the same state, and so part all spots
/// alike into free, reserved and occupied.
pub proof fn lemma_snapshot_determines_state(snap: &Snapshot, a: ParkingView, b: ParkingView)
    requires
        a.wf(),
        b.wf(),
        a.inventory == b.inventory,
        snap.encodes(a),
        snap.encodes(b),
    ensures
        a == b,
        forall|spot: ParkingSpot| a.is_free(spot) == b.is_free(spot),
        forall|spot: ParkingSpot| a.ledger.is_reserved(spot) == b.ledger.is_reserved(spot),
        forall|spot: ParkingSpot| a.ledger.is_occupied(spot) == b.ledger.is_occupied(spot),
{
    let cars = snap.parked_cars@;
    assert forall|id: CarID|
        a.ledger.parked_cars.contains_key(id) <==> b.ledger.parked_cars.contains_key(id) by {
        if a.ledger.parked_cars.contains_key(id) {
            let j = choose|j: int| 0 <= j < cars.len() && (#[trigger] cars[j]).vehicle.id == id;
            assert(b.ledger.parked_cars.contains_key(cars[j].vehicle.id));
        }
        if b.ledger.parked_cars.contains_key(id) {
            let j = choose|j: int| 0 <= j < cars.len() && (#[trigger] cars[j]).vehicle.id == id;
            assert(a.ledger.parked_cars.contains_key(cars[j].vehicle.id));
        }
    }
    assert forall|id: CarID| a.ledger.parked_cars.contains_key(id) implies a.ledger.parked_cars[id]
        == b.ledger.parked_cars[id] by {
        let j = choose|j: int| 0 <= j < cars.len() && (#[trigger] cars[j]).vehicle.id == id;
        assert(a.ledger.parked_cars[cars[j].vehicle.id] == cars[j]);
        assert(b.ledger.parked_cars[cars[j].vehicle.id] == cars[j]);
    }
    assert(a.ledger.parked_cars =~= b.ledger.parked_cars);
    assert forall|spot: ParkingSpot|
        a.ledger.occupants.contains_key(spot) <==> b.ledger.occupants.contains_key(spot) by {
        if a.ledger.occupants.contains_key(spot) {
            let car = a.ledger.occupants[spot];
            assert(b.ledger.parked_cars.contains_key(car));
        }
        if b.ledger.occupants.contains_key(spot) {
            let car = b.ledger.occupants[spot];
            assert(a.ledger.parked_cars.contains_key(car));
        }
    }
    assert forall|spot: ParkingSpot|
        a.ledger.occupants.contains_key(spot) implies a.ledger.occupants[spot]
        == b.ledger.occupants[spot] by {
        let car = a.ledger.occupants[spot];
        assert(b.ledger.parked_cars.contains_key(car));
    }
    assert(a.ledger.occupants =~= b.ledger.occupants);
    assert forall|spot: ParkingSpot|
        a.ledger.reserved.contains(spot) <==> b.ledger.reserved.contains(spot) by {
        assert(snap.reserved_spots@.contains(spot) <==> a.ledger.reserved.contains(spot));
        assert(snap.reserved_spots@.contains(spot) <==> b.ledger.reserved.contains(spot));
    }
    assert(a.ledger.reserved =~= b.ledger.reserved);
}

/// A snapshot says which spots there are and parts them: two consistent states
/// with the same snapshot have the same spots, and the same of them are free,
/// reserved and occupied, and by the same cars.
pub proof fn lemma_snapshot_determines_partition(snap: &Snapshot, a: ParkingView, b: ParkingView)
    requires
        a.wf(),
        b.wf(),
        a.inventory.capacities_fit(),
        b.inventory.capacities_fit(),
        snap.encodes(a),
        snap.encodes(b),
    ensures
        a.inventory.spots() == b.inventory.spots(),
        a.ledger == b.ledger,
        a.events == b.events,
{
    assert forall|spot: ParkingSpot|
        a.inventory.last_spots().contains(spot) <==> b.inventory.last_spots().contains(spot) by {
        assert(snap.last_spots@.contains(spot) <==> a.inventory.last_spots().contains(spot));
        assert(snap.last_spots@.contains(spot) <==> b.inventory.last_spots().contains(spot));
    }
    assert(a.inventory.last_spots() =~= b.inventory.last_spots());
    lemma_last_spots_determine_spots(a.inventory, b.inventory);
    let b2 = ParkingView { inventory: a.inventory, ..b };
    assert(b2.wf()) by {
        assert forall|spot: ParkingSpot|
            !(#[trigger] b2.ledger.is_free(spot)) implies b2.inventory.has_spot(spot) by {
            assert(b.inventory.has_spot(spot));
        }
    }
    lemma_snapshot_determines_state(snap, a, b2);
}

/// What taking up a snapshot on a network gives: a consistent state on this
/// network that the snapshot is one of; or nothing, if there is no such state.
pub open spec fn is_restored(net: &Network, snap: &Snapshot, res: Option<ParkingView>) -> bool {
    match res {
        Some(v) => v.wf() && v.inventory == spec_inventory(net) && snap.encodes(v),
        None => forall|v: ParkingView|
            !(v.wf() && v.inventory == spec_inventory(net) && #[trigger] snap.encodes(v)),
    }
}

/// There and back: a snapshot taken of a consistent state is taken up again, on
/// the network of that state, as the very same state.
pub proof fn lemma_round_trip(
    net: &Network,
    state: ParkingView,
    snap: &Snapshot,
    res: Option<ParkingView>,
)
    requires
        state.wf(),
        state.inventory == spec_inventory(net),
        snap.encodes(state),
        is_restored(net, snap, res),
    ensures
        res == Some(state),
{
    match res {
        Some(v) => {
            lemma_snapshot_determines_state(snap, v, state);
        },
        None => {
            assert(snap.encodes(state));
        },
    }
}

impl ParkingSimState {
    /// Takes a snapshot of the state.
    pub fn to_snapshot(&self) -> (snap: Snapshot)
        requires
            self.wf(),
        ensures
            snap.encodes(self@),
    {
        proof {
            self.lemma_view_wf();
        }
        let ids = self.ledger().car_ids();
        let mut parked_cars: Vec<ParkedCar> = Vec::new();
        let mut k: usize = 0;
        while k < ids.len()
            invariant
                self.wf(),
                self@.wf(),
                k <= ids@.len(),
                crate::ordered::strictly_ascending(ids@),
                forall|id: usize| ids@.contains(id) <==> self@.ledger.parked_cars.contains_key(CarID(id)),
                parked_cars@.len() == k,
                forall|i: int|
                    0 <= i < k ==> (#[trigger] parked_cars@[i]).vehicle.id.0 == ids@[i]
                        && self@.ledger.parked_cars.contains_key(parked_cars@[i].vehicle.id)
                        && self@.ledger.parked_cars[parked_cars@[i].vehicle.id] == parked_cars@[i],
            decreases ids@.len() - k,
        {
            proof {
                assert(ids@.contains(ids@[k as int]));
            }
            let p = *self.lookup_parked_car(CarID(ids[k])).unwrap();
            parked_cars.push(p);
            k += 1;
        }
        let mut taken: Vec<ParkingSpot> = Vec::new();
        self.push_spots_of_kind(&mut taken, 0, false);
        self.push_spots_of_kind(&mut taken, 1, false);
        self.push_spots_of_kind(&mut taken, 2, false);
        let mut reserved_spots: Vec<ParkingSpot> = Vec::new();
        let mut i: usize = 0;
        while i < taken.len()
            invariant
                self@.wf(),
                i <= taken@.len(),
                ascending(taken@),
                forall|spot: ParkingSpot|
                    #![trigger taken@.contains(spot)]
                    taken@.contains(spot) <==> (spot.spec_key().0 <= 2 && self@.has_spot(spot)
                        && !self@.is_free(spot)),
                ascending(reserved_spots@),
                forall|j: int|
                    0 <= j < reserved_spots@.len() ==> self@.ledger.is_reserved(
                        #[trigger] reserved_spots@[j],
                    ) && (i < taken@.len() ==> reserved_spots@[j].spec_lt(taken@[i as int])),
                forall|j: int|
                    0 <= j < i && self@.ledger.is_reserved(#[trigger] taken@[j])
                        ==> reserved_spots@.contains(taken@[j]),
            decreases taken@.len() - i,
        {
            let spot = taken[i];
            let ghost before = reserved_spots@;
            if self.ledger().is_reserved(spot) {
                reserved_spots.push(spot);
            }
            proof {
                if i + 1 < taken@.len() {
                    assert(taken@[i as int].spec_lt(taken@[i + 1]));
                }
                assert forall|j: int| 0 <= j < reserved_spots@.len() implies self@.ledger.is_reserved(
                    #[trigger] reserved_spots@[j],
                ) && (i + 1 < taken@.len() ==> reserved_spots@[j].spec_lt(taken@[i + 1])) by {
                    if j < before.len() {
                        assert(reserved_spots@[j] == before[j]);
                        if i + 1 < taken@.len() {
                            lemma_spot_order(before[j], taken@[i as int], taken@[i + 1]);
                        }
                    }
                }
                assert forall|j: int|
                    0 <= j < i + 1 && self@.ledger.is_reserved(
                        #[trigger] taken@[j],
                    ) implies reserved_spots@.contains(taken@[j]) by {
                    if j < i {
                        assert(before.contains(taken@[j]));
                        let m = choose|m: int| 0 <= m < before.len() && before[m] == taken@[j];
                        assert(reserved_spots@[m] == taken@[j]);
                    } else {
                        assert(reserved_spots@[reserved_spots@.len() - 1] == taken@[j]);
                    }
                }
            }
            i += 1;
        }
        let mut events: Vec<Event> = Vec::new();
        let mut e: usize = 0;
        while e < self.events().len()
            invariant
                e <= self@.events.len(),
                events@ == self@.events.take(e as int),
            decreases self@.events.len() - e,
        {
            events.push(self.events()[e]);
            proof {
                assert(events@ =~= self@.events.take(e + 1));
            }
            e += 1;
        }
        proof {
            assert(events@ =~= self@.events);
            assert forall|id: CarID| #[trigger]
                self@.ledger.parked_cars.contains_key(id) implies car_listed(
                parked_cars@,
                parked_cars@.len() as int,
                id,
            ) by {
                assert(ids@.contains(id.0));
                let m = choose|m: int| 0 <= m < ids@.len() && ids@[m] == id.0;
                assert(parked_cars@[m].vehicle.id == id);
            }
            assert forall|spot: ParkingSpot|
                reserved_spots@.contains(spot) <==> self@.ledger.reserved.contains(spot) by {
                if self@.ledger.reserved.contains(spot) {
                    assert(!self@.ledger.is_free(spot));
                    lemma_spot_key_injective(spot, spot);
                    assert(taken@.contains(spot));
                    let j = choose|j: int| 0 <= j < taken@.len() && taken@[j] == spot;
                    assert(self@.ledger.is_reserved(taken@[j]));
                }
            }
        }
        Snapshot { last_spots: self.inventory().get_last_spots(), parked_cars, reserved_spots, events }
    }

    /// Takes up the state of which a snapshot was taken, on the network it was
    /// taken on. Returns nothing if the snapshot is of no consistent state on
    /// this network: if its lists are out of order, a car or a reservation is in
    /// a spot that does not exist, or two of them are in one spot.
    pub fn from_snapshot(net: &Network, snap: &Snapshot) -> (res: Option<ParkingSimState>)
        requires
            net.wf(),
        ensures
            res matches Some(sim) ==> sim.wf() && sim.consistent_with(net),
            is_restored(
                net,
                snap,
                match res {
                    Some(sim) => Some(sim@),
                    None => None,
                },
            ),
    {
        let inventory = Inventory::new(net);
        let last_spots = inventory.get_last_spots();
        if !same_spots(&last_spots, &snap.last_spots) {
            proof {
                assert forall|v: ParkingView|
                    !(v.wf() && v.inventory == spec_inventory(net) && #[trigger] snap.encodes(
                        v,
                    )) by {
                    if v.inventory == spec_inventory(net) && snap.encodes(v) {
                        lemma_lists_unique(
                            last_spots@,
                            snap.last_spots@,
                            v.inventory.last_spots(),
                        );
                    }
                }
            }
            return None;
        }
        let mut ledger = Ledger::new();
        let cars = &snap.parked_cars;
        let mut i: usize = 0;
        while i < cars.len()
            invariant
                cars == &snap.parked_cars,
                i <= cars@.len(),
                inventory@ == spec_inventory(net),
                lists(snap.last_spots@, inventory@.last_spots()),
                ledger.wf(),
                cars_rising(cars@.take(i as int)),
                ledger@.reserved =~= Set::<ParkingSpot>::empty(),
                forall|id: CarID| #[trigger]
                    ledger@.parked_cars.contains_key(id) <==> car_listed(cars@, i as int, id),
                forall|j: int|
                    0 <= j < i ==> ledger@.parked_cars[(#[trigger] cars@[j]).vehicle.id] == cars@[j],
                forall|spot: ParkingSpot| #[trigger]
                    ledger@.occupants.contains_key(spot) <==> spot_listed(cars@, i as int, spot),
                forall|spot: ParkingSpot|
                    !(#[trigger] ledger@.is_free(spot)) ==> inventory@.has_spot(spot),
            decreases cars@.len() - i,
        {
            let p = cars[i];
            let rising = i == 0 || cars[i - 1].vehicle.id.0 < p.vehicle.id.0;
            if !rising || !inventory.has_spot(p.spot) || !ledger.is_free(p.spot) {
                proof {
                    assert forall|v: ParkingView|
                        !(v.wf() && v.inventory == spec_inventory(net) && #[trigger] snap.encodes(
                            v,
                        )) by {
                        if v.wf() && v.inventory == spec_inventory(net) && snap.encodes(v) {
                            assert(v.ledger.parked_cars.contains_key(cars@[i as int].vehicle.id));
                            assert(v.ledger.occupants.contains_key(p.spot));
                            assert(!v.ledger.is_free(p.spot));
                            if !rising {
                                assert(cars@[i - 1].vehicle.id.0 < cars@[i as int].vehicle.id.0);
                            } else if !ledger@.is_free(p.spot) {
                                assert(spot_listed(cars@, i as int, p.spot));
                                let j = choose|j: int|
                                    0 <= j < i && (#[trigger] cars@[j]).spot == p.spot;
                                assert(v.ledger.parked_cars.contains_key(cars@[j].vehicle.id));
                                assert(cars@[j].vehicle.id.0 < cars@[i as int].vehicle.id.0);
                            }
                        }
                    }
                }
                return None;
            }
            let ghost before = ledger@;
            proof {
                if before.parked_cars.contains_key(p.vehicle.id) {
                    assert(car_listed(cars@, i as int, p.vehicle.id));
                    let j = choose|j: int| 0 <= j < i && (#[trigger] cars@[j]).vehicle.id == p.vehicle.id;
                    assert(before.parked_cars[cars@[j].vehicle.id] == cars@[j]);
                    assert(before.occupants.contains_key(cars@[j].spot));
                    if j < i - 1 {
                        assert(cars@.take(i as int)[j].vehicle.id.0 < cars@.take(i as int)[i
                            - 1].vehicle.id.0);
                    }
                    assert(cars@[j].vehicle.id.0 <= cars@[i - 1].vehicle.id.0);
                }
                assert(!before.parked_cars.contains_key(p.vehicle.id));
            }
            ledger.reserve_spot(p.spot);
            ledger.add_parked_car(p);
            proof {
                assert(ledger@.reserved =~= Set::<ParkingSpot>::empty());
                assert forall|a: int, b: int| 0 <= a < b < i + 1 implies (#[trigger] cars@.take(
                    i + 1,
                )[a]).vehicle.id.0 < (#[trigger] cars@.take(i + 1)[b]).vehicle.id.0 by {
                    if b < i {
                        assert(cars@.take(i as int)[a].vehicle.id.0 < cars@.take(
                            i as int,
                        )[b].vehicle.id.0);
                    } else if a < i - 1 {
                        assert(cars@.take(i as int)[a].vehicle.id.0 < cars@.take(i as int)[i
                            - 1].vehicle.id.0);
                    }
                }
                assert forall|id: CarID| #[trigger]
                    ledger@.parked_cars.contains_key(id) <==> car_listed(cars@, i + 1, id) by {
                    if id == p.vehicle.id {
                        assert(cars@[i as int].vehicle.id == id);
                    } else {
                        if before.parked_cars.contains_key(id) {
                            let j = choose|j: int| 0 <= j < i && (#[trigger] cars@[j]).vehicle.id == id;
                            assert(0 <= j < i + 1 && cars@[j].vehicle.id == id);
                        }
                        if car_listed(cars@, i + 1, id) {
                            let j = choose|j: int|
                                0 <= j < i + 1 && (#[trigger] cars@[j]).vehicle.id == id;
                            assert(0 <= j < i && cars@[j].vehicle.id == id);
                        }
                    }
                }
                assert forall|j: int| 0 <= j < i + 1 implies ledger@.parked_cars[(
                #[trigger] cars@[j]).vehicle.id] == cars@[j] by {
                    if j < i {
                        assert(car_listed(cars@, i as int, cars@[j].vehicle.id));
                        assert(before.parked_cars[cars@[j].vehicle.id] == cars@[j]);
                    }
                }
                assert forall|spot: ParkingSpot| #[trigger]
                    ledger@.occupants.contains_key(spot) <==> spot_listed(cars@, i + 1, spot) by {
                    if spot == p.spot {
                        assert(cars@[i as int].spot == spot);
                    } else {
                        if before.occupants.contains_key(spot) {
                            let j = choose|j: int| 0 <= j < i && (#[trigger] cars@[j]).spot == spot;
                            assert(0 <= j < i + 1 && cars@[j].spot == spot);
                        }
                        if spot_listed(cars@, i + 1, spot) {
                            let j = choose|j: int| 0 <= j < i + 1 && (#[trigger] cars@[j]).spot == spot;
                            assert(0 <= j < i && cars@[j].spot == spot);
                        }
                    }
                }
                assert forall|spot: ParkingSpot|
                    !(#[trigger] ledger@.is_free(spot)) implies inventory@.has_spot(spot) by {
                    if spot != p.spot {
                        assert(!before.is_free(spot));
                    }
                }
            }
            i += 1;
        }
        let ghost parked = ledger@;
        proof {
            ledger.lemma_view_wf();
            assert(cars@.take(i as int) =~= cars@);
        }
        let spots = &snap.reserved_spots;
        let mut k: usize = 0;
        while k < spots.len()
            invariant
                spots == &snap.reserved_spots,
                cars == &snap.parked_cars,
                k <= spots@.len(),
                inventory@ == spec_inventory(net),
                lists(snap.last_spots@, inventory@.last_spots()),
                ledger.wf(),
                parked.wf(),
                cars_rising(cars@),
                forall|id: CarID| #[trigger]
                    parked.parked_cars.contains_key(id) <==> car_listed(
                        cars@,
                        cars@.len() as int,
                        id,
                    ),
                forall|j: int|
                    0 <= j < cars@.len() ==> parked.parked_cars[(#[trigger] cars@[j]).vehicle.id]
                        == cars@[j],
                ascending(spots@.take(k as int)),
                ledger@.parked_cars == parked.parked_cars,
                ledger@.occupants == parked.occupants,
                forall|spot: ParkingSpot|
                    ledger@.reserved.contains(spot) <==> spots@.take(k as int).contains(spot),
                forall|spot: ParkingSpot|
                    !(#[trigger] ledger@.is_free(spot)) ==> inventory@.has_spot(spot),
            decreases spots@.len() - k,
        {
            let spot = spots[k];
            let rising = k == 0 || spots[k - 1].lt(&spot);
            if !rising || !inventory.has_spot(spot) || !ledger.is_free(spot) {
                proof {
                    assert forall|v: ParkingView|
                        !(v.wf() && v.inventory == spec_inventory(net) && #[trigger] snap.encodes(
                            v,
                        )) by {
                        if v.wf() && v.inventory == spec_inventory(net) && snap.encodes(v) {
                            assert(spots@.contains(spots@[k as int]));
                            assert(v.ledger.reserved.contains(spot));
                            assert(!v.ledger.is_free(spot));
                            if !rising {
                                assert(spots@[k - 1].spec_lt(spots@[k as int]));
                            } else if !ledger@.is_free(spot) {
                                if ledger@.occupants.contains_key(spot) {
                                    let car = parked.occupants[spot];
                                    assert(parked.parked_cars.contains_key(car));
                                    let j = choose|j: int|
                                        0 <= j < cars@.len() && (#[trigger] cars@[j]).vehicle.id
                                            == car;
                                    assert(v.ledger.parked_cars.contains_key(
                                        cars@[j].vehicle.id,
                                    ));
                                    assert(v.ledger.occupants.contains_key(spot));
                                } else {
                                    assert(spots@.take(k as int).contains(spot));
                                    let j = choose|j: int|
                                        0 <= j < k && spots@.take(k as int)[j] == spot;
                                    assert(spots@[j].spec_lt(spots@[k as int]));
                                }
                            }
                        }
                    }
                }
                return None;
            }
            let ghost before = ledger@;
            ledger.reserve_spot(spot);
            proof {
                assert(spots@.take(k + 1) =~= spots@.take(k as int).push(spot));
                assert forall|a: int, b: int| 0 <= a < b < k + 1 implies (#[trigger] spots@.take(
                    k + 1,
                )[a]).spec_lt(#[trigger] spots@.take(k + 1)[b]) by {
                    if b < k {
                        assert(spots@.take(k as int)[a].spec_lt(spots@.take(k as int)[b]));
                    } else if a < k - 1 {
                        assert(spots@.take(k as int)[a].spec_lt(spots@.take(k as int)[k - 1]));
                        lemma_spot_order(spots@[a], spots@[k - 1], spots@[k as int]);
                    }
                }
                assert forall|sp: ParkingSpot|
                    ledger@.reserved.contains(sp) <==> spots@.take(k + 1).contains(sp) by {
                    vstd::seq_lib::lemma_seq_contains_after_push(spots@.take(k as int), spot, sp);
                }
                assert forall|sp: ParkingSpot|
                    !(#[trigger] ledger@.is_free(sp)) implies inventory@.has_spot(sp) by {
                    if sp != spot {
                        assert(!before.is_free(sp));
                    }
                }
            }
            k += 1;
        }
        let mut events: Vec<Event> = Vec::new();
        let mut e: usize = 0;
        while e < snap.events.len()
            invariant
                e <= snap.events@.len(),
                events@ == snap.events@.take(e as int),
            decreases snap.events@.len() - e,
        {
            events.push(snap.events[e]);
            proof {
                assert(events@ =~= snap.events@.take(e + 1));
            }
            e += 1;
        }
        proof {
            assert(events@ =~= snap.events@);
            assert(spots@.take(k as int) =~= spots@);
            assert(cars@.take(i as int) =~= cars@);
            assert forall|j: int| 0 <= j < cars@.len() implies ledger@.parked_cars.contains_key(
                (#[trigger] cars@[j]).vehicle.id,
            ) by {
                assert(car_listed(cars@, cars@.len() as int, cars@[j].vehicle.id));
            }
        }
        let sim = ParkingSimState::from_parts(inventory, ledger, events);
        proof {
            sim.lemma_view_wf();
        }
        Some(sim)
    }
}

} // verus!
