//! The free spots that a driver on a driving lane can still reach: those that lie
//! ahead of the driver on that lane.

use crate::ids::BuildingID;
use crate::inventory::{lemma_inventory_lots, lemma_inventory_offstreet, lemma_inventory_onstreet, spec_inventory};
use crate::network::{Network, Position};
use crate::spot::{ParkingSpot, ascending, before_owner, lemma_spot_key_injective, lists, owned_by};
use crate::state::{ParkingSimState, ParkingView};
use crate::vehicle::Vehicle;
use vstd::prelude::*;

verus! {

/// The spots of a list of spots with their driving positions.
pub open spec fn spots_of(found: Seq<(ParkingSpot, Position)>) -> Seq<ParkingSpot> {
    Seq::new(found.len(), |i: int| found[i].0)
}

impl ParkingView {
    /// The spot is one that a vehicle whose front is at `driving_pos` may park
    /// in: it exists and is free, the vehicle leaves the road for it from the
    /// lane it is on, at a point strictly ahead of it, and, if the spot is
    /// private to a building, that building is the target of the trip.
    pub open spec fn is_candidate(
        self,
        net: &Network,
        driving_pos: Position,
        vehicle: Vehicle,
        target: BuildingID,
        spot: ParkingSpot,
    ) -> bool {
        &&& self.has_spot(spot)
        &&& self.is_free(spot)
        &&& self.inventory.driving_pos(spot, vehicle, net).lane == driving_pos.lane
        &&& driving_pos.dist_along < self.inventory.driving_pos(spot, vehicle, net).dist_along
        &&& (spot matches ParkingSpot::Offstreet(b, _) ==> (net.buildings@[b.0 as int].parking
            is Private ==> b == target))
    }

    /// The set of candidate spots.
    pub open spec fn candidates(
        self,
        net: &Network,
        driving_pos: Position,
        vehicle: Vehicle,
        target: BuildingID,
    ) -> Set<ParkingSpot> {
        Set::new(|spot: ParkingSpot| self.is_candidate(net, driving_pos, vehicle, target, spot))
    }
}

/// A candidate spot is listed under the driving lane of the vehicle.
pub proof fn lemma_candidate_listed(
    s: ParkingView,
    net: &Network,
    driving_pos: Position,
    vehicle: Vehicle,
    target: BuildingID,
    spot: ParkingSpot,
)
    requires
        net.wf(),
        s.inventory == spec_inventory(net),
        s.is_candidate(net, driving_pos, vehicle, target, spot),
    ensures
        match spot {
            ParkingSpot::Onstreet(l, _) => s.inventory.parking_lanes_on(driving_pos.lane).contains(
                l,
            ),
            ParkingSpot::Offstreet(b, _) => s.inventory.offstreet_on(driving_pos.lane).contains(
                (b, s.inventory.driving_pos(spot, vehicle, net).dist_along),
            ),
            ParkingSpot::Lot(pl, _) => s.inventory.lots_on(driving_pos.lane).contains(pl),
        },
{
    lemma_inventory_onstreet(net);
    lemma_inventory_offstreet(net);
    lemma_inventory_lots(net);
    match spot {
        ParkingSpot::Onstreet(l, _) => {
            assert(s.inventory.onstreet.contains_key(l));
        },
        ParkingSpot::Offstreet(b, _) => {
            assert(s.inventory.offstreet.contains_key(b));
        },
        ParkingSpot::Lot(pl, _) => {
            assert(s.inventory.lots.contains_key(pl));
        },
    }
}

/// What is offered and what is not. A spot private to a building is offered to
/// nobody but those whose trip ends at that building. A spot of a garage open to
/// everybody and a slot of a parking lot are offered whenever they exist, are
/// free, and are left for from the vehicle's lane at a point ahead of it. No
/// spot is offered that is left for at or behind the vehicle.
pub proof fn lemma_candidate_rules(
    s: ParkingView,
    net: &Network,
    driving_pos: Position,
    vehicle: Vehicle,
    target: BuildingID,
    spot: ParkingSpot,
)
    ensures
        s.is_candidate(net, driving_pos, vehicle, target, spot) ==> {
            &&& s.has_spot(spot)
            &&& s.is_free(spot)
            &&& s.inventory.driving_pos(spot, vehicle, net).lane == driving_pos.lane
            &&& s.inventory.driving_pos(spot, vehicle, net).dist_along > driving_pos.dist_along
        },
        s.is_candidate(net, driving_pos, vehicle, target, spot) ==> (spot matches ParkingSpot::Offstreet(
            b,
            _,
        ) ==> net.buildings@[b.0 as int].parking is PublicGarage || b == target),
        s.has_spot(spot) && s.is_free(spot) && s.inventory.driving_pos(spot, vehicle, net).lane
            == driving_pos.lane && s.inventory.driving_pos(spot, vehicle, net).dist_along
            > driving_pos.dist_along && (spot matches ParkingSpot::Offstreet(b, _)
            ==> net.buildings@[b.0 as int].parking is PublicGarage) ==> s.is_candidate(
            net,
            driving_pos,
            vehicle,
            target,
            spot,
        ),
{
}

impl ParkingSimState {
    /// Appends the candidate spots on the street, in the order of spots.
    fn push_onstreet_candidates(
        &self,
        out: &mut Vec<ParkingSpot>,
        driving_pos: Position,
        vehicle: &Vehicle,
        target: BuildingID,
        net: &Network,
    )
        requires
            net.wf(),
            self.consistent_with(net),
            old(out)@.len() == 0,
        ensures
            ascending(final(out)@),
            forall|i: int| 0 <= i < final(out)@.len() ==> (#[trigger] final(out)@[i]).spec_key().0 == 0,
            forall|spot: ParkingSpot|
                #![trigger final(out)@.contains(spot)]
                final(out)@.contains(spot) <==> spot.spec_key().0 == 0 && self@.is_candidate(
                    net,
                    driving_pos,
                    *vehicle,
                    target,
                    spot,
                ),
    {
        proof {
            lemma_inventory_onstreet(net);
        }
        let ghost view = self@;
        let ghost d = driving_pos.lane;
        let inv = self.inventory();
        match inv.parking_lanes_on(driving_pos.lane) {
            None => {
                proof {
                    assert forall|spot: ParkingSpot|
                        spot.spec_key().0 == 0 implies !view.is_candidate(
                        net,
                        driving_pos,
                        *vehicle,
                        target,
                        spot,
                    ) by {
                        if view.is_candidate(net, driving_pos, *vehicle, target, spot) {
                            lemma_candidate_listed(view, net, driving_pos, *vehicle, target, spot);
                        }
                    }
                }
            },
            Some(lanes) => {
                proof {
                    assert forall|spot: ParkingSpot|
                        spot.spec_key().0 == 0 && view.is_candidate(
                            net,
                            driving_pos,
                            *vehicle,
                            target,
                            spot,
                        ) implies lanes@.len() > 0 && spot.spec_key().1 >= lanes@[0].0 by {
                        lemma_candidate_listed(view, net, driving_pos, *vehicle, target, spot);
                        let l = crate::ids::LaneID(spot.spec_key().1);
                        let m = choose|m: int| 0 <= m < lanes@.len() && lanes@[m] == l;
                        if m > 0 {
                            assert(lanes@[0].0 < lanes@[m].0);
                        }
                    }
                }
                let mut k: usize = 0;
                while k < lanes.len()
                    invariant
                        net.wf(),
                        self.consistent_with(net),
                        view == self@,
                        inv@ == view.inventory,
                        d == driving_pos.lane,
                        lanes@ == view.inventory.parking_lanes_on(d),
                        k <= lanes@.len(),
                        ascending(out@),
                        forall|i: int|
                            0 <= i < out@.len() ==> (#[trigger] out@[i]).spec_key().0 == 0 && (k
                                < lanes@.len() ==> out@[i].spec_key().1 < lanes@[k as int].0),
                        forall|spot: ParkingSpot|
                            #![trigger out@.contains(spot)]
                            out@.contains(spot) <==> spot.spec_key().0 == 0 && (k < lanes@.len()
                                ==> spot.spec_key().1 < lanes@[k as int].0) && view.is_candidate(
                                net,
                                driving_pos,
                                *vehicle,
                                target,
                                spot,
                            ),
                    decreases lanes@.len() - k,
                {
                    proof {
                        lemma_inventory_onstreet(net);
                    }
                    let l = lanes[k];
                    let n = inv.num_onstreet_spots(l);
                    let ghost at_lane = out@;
                    let mut idx: usize = 0;
                    while idx < n
                        invariant
                            net.wf(),
                            self.consistent_with(net),
                            view == self@,
                            inv@ == view.inventory,
                            d == driving_pos.lane,
                            view.inventory.onstreet.contains_key(l),
                            view.inventory.onstreet[l].driving_lane == d,
                            n == view.inventory.onstreet[l].spot_dist_along.len(),
                            idx <= n,
                            ascending(out@),
                            forall|i: int|
                                0 <= i < out@.len() ==> (#[trigger] out@[i]).spec_key().0 == 0 && (
                                out@[i].spec_key().1 < l.0 || (out@[i].spec_key().1 == l.0
                                    && out@[i].spec_key().2 < idx)),
                            forall|spot: ParkingSpot|
                                #![trigger out@.contains(spot)]
                                out@.contains(spot) <==> at_lane.contains(spot) || (owned_by(
                                    spot,
                                    0,
                                    l.0,
                                ) && spot.spec_key().2 < idx && view.is_candidate(
                                    net,
                                    driving_pos,
                                    *vehicle,
                                    target,
                                    spot,
                                )),
                        decreases n - idx,
                    {
                        let spot = ParkingSpot::Onstreet(l, idx);
                        let ghost before = out@;
                        let mut take = false;
                        if self.is_free(spot) {
                            let pos = inv.spot_to_driving_pos(spot, vehicle, net);
                            if driving_pos.dist_along < pos.dist_along {
                                take = true;
                            }
                        }
                        if take {
                            out.push(spot);
                        }
                        proof {
                            assert(take == view.is_candidate(
                                net,
                                driving_pos,
                                *vehicle,
                                target,
                                spot,
                            ));
                            assert forall|s: ParkingSpot|
                                #![trigger out@.contains(s)]
                                out@.contains(s) <==> at_lane.contains(s) || (owned_by(s, 0, l.0)
                                    && s.spec_key().2 < idx + 1 && view.is_candidate(
                                    net,
                                    driving_pos,
                                    *vehicle,
                                    target,
                                    s,
                                )) by {
                                assert(before.contains(s) <==> at_lane.contains(s) || (owned_by(
                                    s,
                                    0,
                                    l.0,
                                ) && s.spec_key().2 < idx && view.is_candidate(
                                    net,
                                    driving_pos,
                                    *vehicle,
                                    target,
                                    s,
                                )));
                                if take {
                                    vstd::seq_lib::lemma_seq_contains_after_push(before, spot, s);
                                }
                                if owned_by(s, 0, l.0) && s.spec_key().2 == idx {
                                    lemma_spot_key_injective(s, spot);
                                }
                            }
                        }
                        idx += 1;
                    }
                    proof {
                        if k + 1 < lanes@.len() {
                            assert(lanes@[k as int].0 < lanes@[k + 1].0);
                        }
                        assert forall|spot: ParkingSpot|
                            #![trigger out@.contains(spot)]
                            out@.contains(spot) <==> spot.spec_key().0 == 0 && (k + 1 < lanes@.len()
                                ==> spot.spec_key().1 < lanes@[k + 1].0) && view.is_candidate(
                                net,
                                driving_pos,
                                *vehicle,
                                target,
                                spot,
                            ) by {
                            assert(at_lane.contains(spot) <==> spot.spec_key().0 == 0
                                && spot.spec_key().1 < l.0 && view.is_candidate(
                                net,
                                driving_pos,
                                *vehicle,
                                target,
                                spot,
                            ));
                            if spot.spec_key().0 == 0 && view.is_candidate(
                                net,
                                driving_pos,
                                *vehicle,
                                target,
                                spot,
                            ) {
                                lemma_candidate_listed(
                                    view,
                                    net,
                                    driving_pos,
                                    *vehicle,
                                    target,
                                    spot,
                                );
                                let sl = crate::ids::LaneID(spot.spec_key().1);
                                let m = choose|m: int| 0 <= m < lanes@.len() && lanes@[m] == sl;
                                if m < k {
                                    assert(lanes@[m].0 < lanes@[k as int].0);
                                }
                                if m > k + 1 {
                                    assert(lanes@[k + 1].0 < lanes@[m].0);
                                }
                            }
                        }
                    }
                    k += 1;
                }
            },
        }
    }
    /// Appends the candidate spots off the street, in the order of spots.
    fn push_offstreet_candidates(
        &self,
        out: &mut Vec<ParkingSpot>,
        driving_pos: Position,
        vehicle: &Vehicle,
        target: BuildingID,
        net: &Network,
    )
        requires
            net.wf(),
            self.consistent_with(net),
            ascending(old(out)@),
            forall|i: int| 0 <= i < old(out)@.len() ==> (#[trigger] old(out)@[i]).spec_key().0 == 0,
        ensures
            ascending(final(out)@),
            forall|i: int| 0 <= i < final(out)@.len() ==> (#[trigger] final(out)@[i]).spec_key().0 <= 1,
            forall|spot: ParkingSpot|
                #![trigger final(out)@.contains(spot)]
                final(out)@.contains(spot) <==> old(out)@.contains(spot) || (spot.spec_key().0 == 1
                    && self@.is_candidate(net, driving_pos, *vehicle, target, spot)),
    {
        proof {
            lemma_inventory_offstreet(net);
        }
        let ghost view = self@;
        let ghost d = driving_pos.lane;
        let inv = self.inventory();
        match inv.offstreet_on(driving_pos.lane) {
            None => {
                proof {
                    assert forall|spot: ParkingSpot|
                        spot.spec_key().0 == 1 implies !view.is_candidate(
                        net,
                        driving_pos,
                        *vehicle,
                        target,
                        spot,
                    ) by {
                        if view.is_candidate(net, driving_pos, *vehicle, target, spot) {
                            lemma_candidate_listed(view, net, driving_pos, *vehicle, target, spot);
                        }
                    }
                }
            },
            Some(bldgs) => {
                proof {
                    assert forall|spot: ParkingSpot|
                        spot.spec_key().0 == 1 && view.is_candidate(
                            net,
                            driving_pos,
                            *vehicle,
                            target,
                            spot,
                        ) implies bldgs@.len() > 0 && spot.spec_key().1 >= bldgs@[0].0.0 by {
                        lemma_candidate_listed(view, net, driving_pos, *vehicle, target, spot);
                        let e = (
                            BuildingID(spot.spec_key().1),
                            view.inventory.driving_pos(spot, *vehicle, net).dist_along,
                        );
                        let m = choose|m: int| 0 <= m < bldgs@.len() && bldgs@[m] == e;
                        if m > 0 {
                            assert(bldgs@[0].0.0 < bldgs@[m].0.0);
                        }
                    }
                }
                let mut k: usize = 0;
                while k < bldgs.len()
                    invariant
                        net.wf(),
                        self.consistent_with(net),
                        view == self@,
                        inv@ == view.inventory,
                        d == driving_pos.lane,
                        bldgs@ == view.inventory.offstreet_on(d),
                        k <= bldgs@.len(),
                        ascending(out@),
                        forall|i: int|
                            0 <= i < out@.len() ==> (#[trigger] out@[i]).spec_key().0 <= 1 && (k
                                < bldgs@.len() ==> before_owner(out@[i], 1, bldgs@[k as int].0.0)),
                        forall|spot: ParkingSpot|
                            #![trigger out@.contains(spot)]
                            out@.contains(spot) <==> old(out)@.contains(spot) || (spot.spec_key().0
                                == 1 && (k < bldgs@.len() ==> spot.spec_key().1 < bldgs@[k as int].0.0)
                                && view.is_candidate(net, driving_pos, *vehicle, target, spot)),
                    decreases bldgs@.len() - k,
                {
                    proof {
                        lemma_inventory_offstreet(net);
                    }
                    let entry = bldgs[k];
                    let b = entry.0;
                    let dist = entry.1;
                    proof {
                        assert(view.inventory.offstreet_on(d)[k as int] == entry);
                        assert(view.inventory.offstreet.contains_key(b));
                    }
                    let ghost before = out@;
                    let allowed = !net.buildings[b.0].parking.is_private() || target == b;
                    let take = allowed && driving_pos.dist_along < dist;
                    if take {
                        self.push_spots_of(out, 1, b.0, true);
                    }
                    proof {
                        if k + 1 < bldgs@.len() {
                            assert(bldgs@[k as int].0.0 < bldgs@[k + 1].0.0);
                        }
                        assert forall|spot: ParkingSpot|
                            #![trigger out@.contains(spot)]
                            out@.contains(spot) <==> old(out)@.contains(spot) || (spot.spec_key().0
                                == 1 && (k + 1 < bldgs@.len() ==> spot.spec_key().1 < bldgs@[k
                                + 1].0.0) && view.is_candidate(
                                net,
                                driving_pos,
                                *vehicle,
                                target,
                                spot,
                            )) by {
                            assert(before.contains(spot) <==> old(out)@.contains(spot) || (
                            spot.spec_key().0 == 1 && spot.spec_key().1 < b.0 && view.is_candidate(
                                net,
                                driving_pos,
                                *vehicle,
                                target,
                                spot,
                            )));
                            if take {
                                assert(out@.contains(spot) <==> before.contains(spot) || (owned_by(
                                    spot,
                                    1,
                                    b.0,
                                ) && view.has_spot(spot) && view.is_free(spot)));
                            }
                            if owned_by(spot, 1, b.0) {
                                assert(spot matches ParkingSpot::Offstreet(sb, _) && sb == b);
                                assert(view.is_candidate(net, driving_pos, *vehicle, target, spot)
                                    <==> take && view.has_spot(spot) && view.is_free(spot));
                            }
                            if spot.spec_key().0 == 1 && view.is_candidate(
                                net,
                                driving_pos,
                                *vehicle,
                                target,
                                spot,
                            ) {
                                lemma_candidate_listed(
                                    view,
                                    net,
                                    driving_pos,
                                    *vehicle,
                                    target,
                                    spot,
                                );
                                let e = (
                                    BuildingID(spot.spec_key().1),
                                    view.inventory.driving_pos(spot, *vehicle, net).dist_along,
                                );
                                let m = choose|m: int| 0 <= m < bldgs@.len() && bldgs@[m] == e;
                                if m < k {
                                    assert(bldgs@[m].0.0 < bldgs@[k as int].0.0);
                                }
                                if m > k + 1 {
                                    assert(bldgs@[k + 1].0.0 < bldgs@[m].0.0);
                                }
                            }
                        }
                    }
                    k += 1;
                }
            },
        }
    }

    /// Appends the candidate slots of parking lots, in the order of spots.
    fn push_lot_candidates(
        &self,
        out: &mut Vec<ParkingSpot>,
        driving_pos: Position,
        vehicle: &Vehicle,
        target: BuildingID,
        net: &Network,
    )
        requires
            net.wf(),
            self.consistent_with(net),
            ascending(old(out)@),
            forall|i: int| 0 <= i < old(out)@.len() ==> (#[trigger] old(out)@[i]).spec_key().0 <= 1,
        ensures
            ascending(final(out)@),
            forall|spot: ParkingSpot|
                #![trigger final(out)@.contains(spot)]
                final(out)@.contains(spot) <==> old(out)@.contains(spot) || (spot.spec_key().0 == 2
                    && self@.is_candidate(net, driving_pos, *vehicle, target, spot)),
    {
        proof {
            lemma_inventory_lots(net);
        }
        let ghost view = self@;
        let ghost d = driving_pos.lane;
        let inv = self.inventory();
        match inv.lots_on(driving_pos.lane) {
            None => {
                proof {
                    assert forall|spot: ParkingSpot|
                        spot.spec_key().0 == 2 implies !view.is_candidate(
                        net,
                        driving_pos,
                        *vehicle,
                        target,
                        spot,
                    ) by {
                        if view.is_candidate(net, driving_pos, *vehicle, target, spot) {
                            lemma_candidate_listed(view, net, driving_pos, *vehicle, target, spot);
                        }
                    }
                }
            },
            Some(lots) => {
                proof {
                    assert forall|spot: ParkingSpot|
                        spot.spec_key().0 == 2 && view.is_candidate(
                            net,
                            driving_pos,
                            *vehicle,
                            target,
                            spot,
                        ) implies lots@.len() > 0 && spot.spec_key().1 >= lots@[0].0 by {
                        lemma_candidate_listed(view, net, driving_pos, *vehicle, target, spot);
                        let pl = crate::ids::ParkingLotID(spot.spec_key().1);
                        let m = choose|m: int| 0 <= m < lots@.len() && lots@[m] == pl;
                        if m > 0 {
                            assert(lots@[0].0 < lots@[m].0);
                        }
                    }
                }
                let mut k: usize = 0;
                while k < lots.len()
                    invariant
                        net.wf(),
                        self.consistent_with(net),
                        view == self@,
                        inv@ == view.inventory,
                        d == driving_pos.lane,
                        lots@ == view.inventory.lots_on(d),
                        k <= lots@.len(),
                        ascending(out@),
                        forall|i: int|
                            0 <= i < out@.len() ==> (#[trigger] out@[i]).spec_key().0 <= 2 && (k
                                < lots@.len() ==> before_owner(out@[i], 2, lots@[k as int].0)),
                        forall|spot: ParkingSpot|
                            #![trigger out@.contains(spot)]
                            out@.contains(spot) <==> old(out)@.contains(spot) || (spot.spec_key().0
                                == 2 && (k < lots@.len() ==> spot.spec_key().1 < lots@[k as int].0)
                                && view.is_candidate(net, driving_pos, *vehicle, target, spot)),
                    decreases lots@.len() - k,
                {
                    proof {
                        lemma_inventory_lots(net);
                    }
                    let pl = lots[k];
                    proof {
                        assert(view.inventory.lots_on(d)[k as int] == pl);
                        assert(view.inventory.lots.contains_key(pl));
                    }
                    let ghost before = out@;
                    let take = driving_pos.dist_along < net.parking_lots[pl.0].driving_pos.dist_along;
                    if take {
                        self.push_spots_of(out, 2, pl.0, true);
                    }
                    proof {
                        if k + 1 < lots@.len() {
                            assert(lots@[k as int].0 < lots@[k + 1].0);
                        }
                        assert forall|spot: ParkingSpot|
                            #![trigger out@.contains(spot)]
                            out@.contains(spot) <==> old(out)@.contains(spot) || (spot.spec_key().0
                                == 2 && (k + 1 < lots@.len() ==> spot.spec_key().1 < lots@[k + 1].0)
                                && view.is_candidate(net, driving_pos, *vehicle, target, spot)) by {
                            assert(before.contains(spot) <==> old(out)@.contains(spot) || (
                            spot.spec_key().0 == 2 && spot.spec_key().1 < pl.0 && view.is_candidate(
                                net,
                                driving_pos,
                                *vehicle,
                                target,
                                spot,
                            )));
                            if take {
                                assert(out@.contains(spot) <==> before.contains(spot) || (owned_by(
                                    spot,
                                    2,
                                    pl.0,
                                ) && view.has_spot(spot) && view.is_free(spot)));
                            }
                            if owned_by(spot, 2, pl.0) {
                                assert(spot matches ParkingSpot::Lot(sp, _) && sp == pl);
                                assert(view.is_candidate(net, driving_pos, *vehicle, target, spot)
                                    <==> take && view.has_spot(spot) && view.is_free(spot));
                            }
                            if spot.spec_key().0 == 2 && view.is_candidate(
                                net,
                                driving_pos,
                                *vehicle,
                                target,
                                spot,
                            ) {
                                lemma_candidate_listed(
                                    view,
                                    net,
                                    driving_pos,
                                    *vehicle,
                                    target,
                                    spot,
                                );
                                let sl = crate::ids::ParkingLotID(spot.spec_key().1);
                                let m = choose|m: int| 0 <= m < lots@.len() && lots@[m] == sl;
                                if m < k {
                                    assert(lots@[m].0 < lots@[k as int].0);
                                }
                                if m > k + 1 {
                                    assert(lots@[k + 1].0 < lots@[m].0);
                                }
                            }
                        }
                    }
                    k += 1;
                }
            },
        }
    }

    /// The free spots that a vehicle whose front is at `driving_pos` may still
    /// park in, in the order of spots, each with the point where the vehicle
    /// leaves the road for it. Spots private to a building are offered only if
    /// that building is `target`, where the trip ends or a seeded car starts.
    pub fn get_all_free_spots(
        &self,
        driving_pos: Position,
        vehicle: &Vehicle,
        target: BuildingID,
        net: &Network,
    ) -> (found: Vec<(ParkingSpot, Position)>)
        requires
            net.wf(),
            self.consistent_with(net),
        ensures
            lists(spots_of(found@), self@.candidates(net, driving_pos, *vehicle, target)),
            forall|i: int|
                0 <= i < found@.len() ==> (#[trigger] found@[i]).1 == self@.inventory.driving_pos(
                    found@[i].0,
                    *vehicle,
                    net,
                ),
    {
        let mut spots: Vec<ParkingSpot> = Vec::new();
        self.push_onstreet_candidates(&mut spots, driving_pos, vehicle, target, net);
        self.push_offstreet_candidates(&mut spots, driving_pos, vehicle, target, net);
        self.push_lot_candidates(&mut spots, driving_pos, vehicle, target, net);
        proof {
            assert forall|spot: ParkingSpot|
                #![trigger spots@.contains(spot)]
                spots@.contains(spot) <==> self@.is_candidate(
                    net,
                    driving_pos,
                    *vehicle,
                    target,
                    spot,
                ) by {
                lemma_spot_key_injective(spot, spot);
            }
        }
        let mut found: Vec<(ParkingSpot, Position)> = Vec::new();
        let mut i: usize = 0;
        while i < spots.len()
            invariant
                net.wf(),
                self.consistent_with(net),
                i <= spots@.len(),
                found@.len() == i,
                forall|spot: ParkingSpot|
                    #![trigger spots@.contains(spot)]
                    spots@.contains(spot) <==> self@.is_candidate(
                        net,
                        driving_pos,
                        *vehicle,
                        target,
                        spot,
                    ),
                forall|j: int|
                    0 <= j < i ==> (#[trigger] found@[j]).0 == spots@[j] && found@[j].1
                        == self@.inventory.driving_pos(spots@[j], *vehicle, net),
            decreases spots@.len() - i,
        {
            let spot = spots[i];
            proof {
                assert(spots@.contains(spot));
            }
            let pos = self.inventory().spot_to_driving_pos(spot, vehicle, net);
            found.push((spot, pos));
            i += 1;
        }
        proof {
            assert(spots_of(found@) =~= spots@);
        }
        found
    }
}

} // verus!
