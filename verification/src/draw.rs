//! What a renderer needs to draw parked cars: for each car the stretch of a lane
//! or the slot of a lot that it covers. The points themselves are the business
//! of whoever holds the geometry of the network.

use crate::ids::{BuildingID, CarID, Distance, LaneID, ParkingLotID};
use crate::inventory::{lemma_inventory_lots, lemma_inventory_onstreet};
use crate::network::{Network, PARKING_LOT_SPOT_LENGTH};
use crate::spot::ParkingSpot;
use crate::state::{ParkingSimState, ParkingView};
use crate::vehicle::ParkedCar;
use vstd::prelude::*;

verus! {

/// Room left free at either end of a slot of a parking lot: half a metre.
pub const LOT_SPOT_BUFFER: u64 = 5_000;

/// What a car is doing.
#[derive(Clone, Copy, Debug, PartialEq, Eq, Structural)]
pub enum CarStatus {
    Moving,
    Parked,
}

/// The line that stands for a parked car.
#[derive(Clone, Copy, Debug, PartialEq, Eq, Structural)]
pub enum CarBody {
    /// The stretch of a lane's centre line from the car's rear to its front.
    OnLane { lane: LaneID, rear: Distance, front: Distance },
    /// The stretch of a slot of a parking lot between two distances from the
    /// slot's point, along the slot's angle.
    InLot { lot: ParkingLotID, slot: usize, from: Distance, to: Distance },
}

/// A car to draw.
#[derive(Clone, Copy, Debug, PartialEq, Eq, Structural)]
pub struct DrawCarInput {
    pub id: CarID,
    pub status: CarStatus,
    /// The lane that decides in which layer the car is drawn.
    pub on: LaneID,
    pub body: CarBody,
}

/// A point that stands for a parked car, whether it can be drawn or not.
#[derive(Clone, Copy, Debug, PartialEq, Eq, Structural)]
pub enum CanonicalPoint {
    /// The far end of the line that stands for the car.
    EndOfBody(CarBody),
    /// The centre of a parking lot, for a car in a slot without geometry.
    LotCenter(ParkingLotID),
    /// The point where a building's label stands, for a car parked in it.
    BuildingLabel(BuildingID),
}

impl ParkingView {
    /// What to draw for a car parked in a spot. On the street the car is drawn
    /// from its rear to its front, centred in its spot; the rear is drawn at the
    /// lane's start if the car is longer than the stretch before its front. In a
    /// lot it is drawn in its slot if the slot has geometry. Off the street
    /// nothing is drawn.
    pub open spec fn draw_parked(self, net: &Network, p: ParkedCar) -> Option<DrawCarInput> {
        match p.spot {
            ParkingSpot::Onstreet(lane, idx) => {
                let front = self.inventory.onstreet[lane].dist_along_for_car(idx as int, p.vehicle);
                Some(
                    DrawCarInput {
                        id: p.vehicle.id,
                        status: CarStatus::Parked,
                        on: lane,
                        body: CarBody::OnLane {
                            lane,
                            rear: (if front >= p.vehicle.length {
                                front - p.vehicle.length
                            } else {
                                0
                            }) as u64,
                            front: front as u64,
                        },
                    },
                )
            },
            ParkingSpot::Offstreet(_, _) => None,
            ParkingSpot::Lot(pl, idx) => {
                let lot = net.parking_lots@[pl.0 as int];
                if idx < lot.drawn_spots {
                    Some(
                        DrawCarInput {
                            id: p.vehicle.id,
                            status: CarStatus::Parked,
                            on: lot.driving_pos.lane,
                            body: CarBody::InLot {
                                lot: pl,
                                slot: idx,
                                from: LOT_SPOT_BUFFER,
                                to: (PARKING_LOT_SPOT_LENGTH - LOT_SPOT_BUFFER) as u64,
                            },
                        },
                    )
                } else {
                    None
                }
            },
        }
    }

    /// What to draw for a car, if it is parked and can be drawn.
    pub open spec fn draw_car(self, net: &Network, id: CarID) -> Option<DrawCarInput> {
        if self.ledger.parked_cars.contains_key(id) {
            self.draw_parked(net, self.ledger.parked_cars[id])
        } else {
            None
        }
    }

    /// A point that stands for a car, if it is parked: for a car in a building
    /// the building's label, for a car in a lot's slot without geometry the
    /// centre of the lot, and else the far end of what is drawn for the car.
    pub open spec fn canonical_pt(self, net: &Network, id: CarID) -> Option<CanonicalPoint> {
        if self.ledger.parked_cars.contains_key(id) {
            let p = self.ledger.parked_cars[id];
            Some(
                match p.spot {
                    ParkingSpot::Offstreet(b, _) => CanonicalPoint::BuildingLabel(b),
                    ParkingSpot::Lot(pl, _) => match self.draw_parked(net, p) {
                        Some(d) => CanonicalPoint::EndOfBody(d.body),
                        None => CanonicalPoint::LotCenter(pl),
                    },
                    ParkingSpot::Onstreet(_, _) => CanonicalPoint::EndOfBody(
                        self.draw_parked(net, p)->0.body,
                    ),
                },
            )
        } else {
            None
        }
    }

    /// What to draw for the car in a spot, if one stands there and can be drawn.
    pub open spec fn draw_at(self, net: &Network, spot: ParkingSpot) -> Option<DrawCarInput> {
        if self.ledger.occupants.contains_key(spot) {
            self.draw_car(net, self.ledger.occupants[spot])
        } else {
            None
        }
    }

    /// What to draw for the cars in the first `n` spots of a lane (tag 0) or
    /// slots of a lot (tag 2), by rising index.
    pub open spec fn draws_upto(self, net: &Network, tag: u8, owner: usize, n: int) -> Seq<
        DrawCarInput,
    >
        decreases n,
    {
        if n <= 0 {
            Seq::empty()
        } else {
            let before = self.draws_upto(net, tag, owner, n - 1);
            match self.draw_at(net, ParkingSpot::spec_from_key((tag, owner, (n - 1) as usize))) {
                Some(d) => before.push(d),
                None => before,
            }
        }
    }

    /// What to draw for the cars in the first `m` parking lots along a driving
    /// lane, lot by lot.
    pub open spec fn lot_draws_upto(self, net: &Network, d: LaneID, m: int) -> Seq<DrawCarInput>
        decreases m,
    {
        if m <= 0 {
            Seq::empty()
        } else {
            let pl = self.inventory.lots_on(d)[m - 1];
            self.lot_draws_upto(net, d, m - 1) + self.draws_upto(
                net,
                2,
                pl.0,
                self.inventory.lots[pl] as int,
            )
        }
    }
}

impl ParkingSimState {
    /// What to draw for a parked car, if it can be drawn.
    fn draw_parked(&self, p: &ParkedCar, net: &Network) -> (res: Option<DrawCarInput>)
        requires
            net.wf(),
            self.consistent_with(net),
            self@.has_spot(p.spot),
        ensures
            res == self@.draw_parked(net, *p),
    {
        proof {
            lemma_inventory_onstreet(net);
            lemma_inventory_lots(net);
        }
        match p.spot {
            ParkingSpot::Onstreet(lane, idx) => {
                let front = self.inventory().onstreet_lane(lane).unwrap().dist_along_for_car(
                    idx,
                    &p.vehicle,
                );
                let rear = if front >= p.vehicle.length {
                    front - p.vehicle.length
                } else {
                    0
                };
                Some(
                    DrawCarInput {
                        id: p.vehicle.id,
                        status: CarStatus::Parked,
                        on: lane,
                        body: CarBody::OnLane { lane, rear, front },
                    },
                )
            },
            ParkingSpot::Offstreet(_, _) => None,
            ParkingSpot::Lot(pl, idx) => {
                proof {
                    assert(self@.inventory.lots.contains_key(pl));
                }
                let lot = &net.parking_lots[pl.0];
                if idx < lot.drawn_spots {
                    Some(
                        DrawCarInput {
                            id: p.vehicle.id,
                            status: CarStatus::Parked,
                            on: lot.driving_pos.lane,
                            body: CarBody::InLot {
                                lot: pl,
                                slot: idx,
                                from: LOT_SPOT_BUFFER,
                                to: PARKING_LOT_SPOT_LENGTH - LOT_SPOT_BUFFER,
                            },
                        },
                    )
                } else {
                    None
                }
            },
        }
    }

    /// What to draw for a car, if it is parked and can be drawn.
    pub fn get_draw_car(&self, id: CarID, net: &Network) -> (res: Option<DrawCarInput>)
        requires
            self.wf(),
            net.wf(),
            self.consistent_with(net),
        ensures
            res == self@.draw_car(net, id),
    {
        proof {
            self.lemma_view_wf();
        }
        match self.lookup_parked_car(id) {
            Some(p) => {
                proof {
                    assert(self@.ledger.occupants.contains_key(p.spot));
                    assert(!self@.ledger.is_free(p.spot));
                }
                self.draw_parked(p, net)
            },
            None => None,
        }
    }

    /// Appends what to draw for the cars in the spots of a lane (tag 0) or the
    /// slots of a lot (tag 2), by rising index.
    fn push_draws_of(&self, out: &mut Vec<DrawCarInput>, tag: u8, owner: usize, net: &Network)
        requires
            self.wf(),
            net.wf(),
            self.consistent_with(net),
        ensures
            final(out)@ == old(out)@ + self@.draws_upto(
                net,
                tag,
                owner,
                self@.inventory.capacity_for(ParkingSpot::spec_from_key((tag, owner, 0))),
            ),
    {
        proof {
            self.lemma_view_wf();
        }
        let n = self.inventory().capacity(tag, owner);
        let mut idx: usize = 0;
        while idx < n
            invariant
                self.wf(),
                net.wf(),
                self.consistent_with(net),
                self@.wf(),
                idx <= n,
                out@ == old(out)@ + self@.draws_upto(net, tag, owner, idx as int),
            decreases n - idx,
        {
            let spot = ParkingSpot::from_key((tag, owner, idx));
            if let Some(p) = self.get_car_at_spot(spot) {
                proof {
                    assert(!self@.ledger.is_free(spot));
                }
                if let Some(d) = self.draw_parked(p, net) {
                    out.push(d);
                }
            }
            proof {
                assert(out@ =~= old(out)@ + self@.draws_upto(net, tag, owner, idx + 1));
            }
            idx += 1;
        }
    }

    /// What to draw for the cars parked on a parking lane, by rising index of
    /// their spots.
    pub fn get_draw_cars(&self, id: LaneID, net: &Network) -> (cars: Vec<DrawCarInput>)
        requires
            self.wf(),
            net.wf(),
            self.consistent_with(net),
        ensures
            cars@ == self@.draws_upto(
                net,
                0,
                id.0,
                self@.inventory.capacity_for(ParkingSpot::Onstreet(id, 0)),
            ),
    {
        let mut cars: Vec<DrawCarInput> = Vec::new();
        self.push_draws_of(&mut cars, 0, id.0, net);
        proof {
            assert(cars@ =~= self@.draws_upto(
                net,
                0,
                id.0,
                self@.inventory.capacity_for(ParkingSpot::Onstreet(id, 0)),
            ));
        }
        cars
    }

    /// What to draw for the cars in the parking lots along a driving lane, lot by
    /// lot and slot by slot. Cars in slots without geometry are left out.
    pub fn get_draw_cars_in_lots(&self, id: LaneID, net: &Network) -> (cars: Vec<DrawCarInput>)
        requires
            self.wf(),
            net.wf(),
            self.consistent_with(net),
        ensures
            cars@ == self@.lot_draws_upto(net, id, self@.inventory.lots_on(id).len() as int),
    {
        let mut cars: Vec<DrawCarInput> = Vec::new();
        if let Some(lots) = self.inventory().lots_on(id) {
            let mut k: usize = 0;
            while k < lots.len()
                invariant
                    self.wf(),
                    net.wf(),
                    self.consistent_with(net),
                    lots@ == self@.inventory.lots_on(id),
                    k <= lots@.len(),
                    cars@ == self@.lot_draws_upto(net, id, k as int),
                decreases lots@.len() - k,
            {
                proof {
                    lemma_inventory_lots(net);
                    assert(self@.inventory.lots.contains_key(self@.inventory.lots_on(id)[k as int]));
                }
                self.push_draws_of(&mut cars, 2, lots[k].0, net);
                k += 1;
            }
        }
        cars
    }

    /// A point that stands for a parked car: the far end of what is drawn for it,
    /// or else the centre of its lot or the label of its building.
    pub fn canonical_pt(&self, id: CarID, net: &Network) -> (res: Option<CanonicalPoint>)
        requires
            self.wf(),
            net.wf(),
            self.consistent_with(net),
        ensures
            res == self@.canonical_pt(net, id),
    {
        let spot = match self.lookup_parked_car(id) {
            Some(p) => p.spot,
            None => {
                return None;
            },
        };
        let drawn = self.get_draw_car(id, net);
        match spot {
            ParkingSpot::Offstreet(b, _) => Some(CanonicalPoint::BuildingLabel(b)),
            ParkingSpot::Lot(pl, _) => match drawn {
                Some(d) => Some(CanonicalPoint::EndOfBody(d.body)),
                None => Some(CanonicalPoint::LotCenter(pl)),
            },
            ParkingSpot::Onstreet(_, _) => match drawn {
                Some(d) => Some(CanonicalPoint::EndOfBody(d.body)),
                None => {
                    proof {
                        assert(false);
                    }
                    vstd::pervasive::unreached()
                },
            },
        }
    }

    /// What to draw for every parked car that can be drawn, by rising number of
    /// the car.
    pub fn get_all_draw_cars(&self, net: &Network) -> (cars: Vec<DrawCarInput>)
        requires
            self.wf(),
            net.wf(),
            self.consistent_with(net),
        ensures
            forall|i: int, j: int|
                0 <= i < j < cars@.len() ==> (#[trigger] cars@[i]).id.0 < (#[trigger] cars@[j]).id.0,
            forall|i: int|
                0 <= i < cars@.len() ==> self@.draw_car(net, (#[trigger] cars@[i]).id) == Some(
                    cars@[i],
                ),
            forall|id: CarID|
                (#[trigger] self@.draw_car(net, id)) is Some ==> cars@.contains(
                    self@.draw_car(net, id)->0,
                ),
    {
        let ids = self.ledger().car_ids();
        let mut cars: Vec<DrawCarInput> = Vec::new();
        let mut k: usize = 0;
        while k < ids.len()
            invariant
                self.wf(),
                net.wf(),
                self.consistent_with(net),
                k <= ids@.len(),
                crate::ordered::strictly_ascending(ids@),
                forall|id: usize| ids@.contains(id) <==> self@.ledger.parked_cars.contains_key(CarID(id)),
                forall|i: int, j: int|
                    0 <= i < j < cars@.len() ==> (#[trigger] cars@[i]).id.0 < (
                    #[trigger] cars@[j]).id.0,
                forall|i: int|
                    0 <= i < cars@.len() ==> self@.draw_car(net, (#[trigger] cars@[i]).id) == Some(
                        cars@[i],
                    ) && (k < ids@.len() ==> cars@[i].id.0 < ids@[k as int]) && ids@.contains(
                        cars@[i].id.0,
                    ),
                forall|m: int|
                    0 <= m < k && (#[trigger] self@.draw_car(net, CarID(ids@[m]))) is Some
                        ==> cars@.contains(self@.draw_car(net, CarID(ids@[m]))->0),
            decreases ids@.len() - k,
        {
            let ghost before = cars@;
            proof {
                self.lemma_view_wf();
                assert(ids@.contains(ids@[k as int]));
                if k + 1 < ids@.len() {
                    assert(ids@[k as int] < ids@[k + 1]);
                }
            }
            if let Some(d) = self.get_draw_car(CarID(ids[k]), net) {
                cars.push(d);
            }
            proof {
                assert forall|m: int|
                    0 <= m < k + 1 && (#[trigger] self@.draw_car(net, CarID(ids@[m]))) is Some implies cars@.contains(
                    self@.draw_car(net, CarID(ids@[m]))->0,
                ) by {
                    let d = self@.draw_car(net, CarID(ids@[m]))->0;
                    if m < k {
                        assert(before.contains(d));
                        let i = choose|i: int| 0 <= i < before.len() && before[i] == d;
                        assert(cars@[i] == d);
                    } else {
                        assert(cars@[cars@.len() - 1] == d);
                    }
                }
            }
            k += 1;
        }
        proof {
            assert forall|id: CarID| (#[trigger] self@.draw_car(net, id)) is Some implies cars@.contains(
                self@.draw_car(net, id)->0,
            ) by {
                assert(ids@.contains(id.0));
                let m = choose|m: int| 0 <= m < ids@.len() && ids@[m] == id.0;
                assert(CarID(ids@[m]) == id);
            }
        }
        cars
    }
}

} // verus!
