//! From a spot to the point on a driving lane where a vehicle leaves the road for
//! it, and to the point on a walkable lane where its driver goes on.

use crate::inventory::{Inventory, lemma_inventory_lots, lemma_inventory_offstreet, lemma_inventory_onstreet};
use crate::network::{Network, Position};
use crate::spot::ParkingSpot;
use crate::state::ParkingSimState;
use crate::vehicle::Vehicle;
use vstd::prelude::*;

verus! {

impl Inventory {
    /// Where the vehicle leaves the driving lane for the spot.
    pub fn spot_to_driving_pos(&self, spot: ParkingSpot, vehicle: &Vehicle, net: &Network) -> (pos:
        Position)
        requires
            net.wf(),
            self.built_from(net),
            self@.has_spot(spot),
        ensures
            pos == self@.driving_pos(spot, *vehicle, net),
            pos.lane.0 < net.lanes@.len(),
            spot matches ParkingSpot::Onstreet(l, _) ==> pos.lane == self@.onstreet[l].driving_lane,
    {
        proof {
            lemma_inventory_onstreet(net);
            lemma_inventory_offstreet(net);
            lemma_inventory_lots(net);
        }
        match spot {
            ParkingSpot::Onstreet(l, idx) => {
                let lane = self.onstreet_lane(l).unwrap();
                Position::new(l, lane.dist_along_for_car(idx, vehicle)).equiv_pos_for_long_object(
                    lane.driving_lane,
                    vehicle.length,
                    net,
                )
            },
            ParkingSpot::Offstreet(b, _) => {
                proof {
                    assert(self@.offstreet.contains_key(b));
                }
                net.buildings[b.0].driving_connection.unwrap()
            },
            ParkingSpot::Lot(pl, _) => {
                proof {
                    assert(self@.lots.contains_key(pl));
                }
                net.parking_lots[pl.0].driving_pos
            },
        }
    }

    /// Where the driver steps onto a walkable lane from the spot.
    pub fn spot_to_sidewalk_pos(&self, spot: ParkingSpot, net: &Network) -> (pos: Position)
        requires
            net.wf(),
            self.built_from(net),
            self@.has_spot(spot),
        ensures
            pos == self@.sidewalk_pos(spot, net),
    {
        proof {
            lemma_inventory_onstreet(net);
            lemma_inventory_offstreet(net);
            lemma_inventory_lots(net);
        }
        match spot {
            ParkingSpot::Onstreet(l, idx) => {
                let lane = self.onstreet_lane(l).unwrap();
                Position::new(l, lane.center_of_spot(idx)).equiv_pos(lane.sidewalk, net)
            },
            ParkingSpot::Offstreet(b, _) => {
                proof {
                    assert(self@.offstreet.contains_key(b));
                }
                net.buildings[b.0].sidewalk_pos
            },
            ParkingSpot::Lot(pl, _) => {
                proof {
                    assert(self@.lots.contains_key(pl));
                }
                net.parking_lots[pl.0].sidewalk_pos
            },
        }
    }
}

impl ParkingSimState {
    /// Where the vehicle leaves the driving lane for the spot. On the street the
    /// vehicle is centred in its spot, and its front is moved over to the driving
    /// lane so that its tail does not reach behind the lane's start; all spots of
    /// a building share the point where cars reach the building, all slots of a
    /// lot the point where cars reach the lot.
    pub fn spot_to_driving_pos(&self, spot: ParkingSpot, vehicle: &Vehicle, net: &Network) -> (pos:
        Position)
        requires
            net.wf(),
            self.consistent_with(net),
            self@.has_spot(spot),
        ensures
            pos == self@.inventory.driving_pos(spot, *vehicle, net),
            pos.lane.0 < net.lanes@.len(),
            spot matches ParkingSpot::Onstreet(l, _) ==> pos.lane
                == self@.inventory.onstreet[l].driving_lane,
    {
        self.inventory().spot_to_driving_pos(spot, vehicle, net)
    }

    /// Where the driver steps onto a walkable lane from the spot. On the street
    /// this is beside the middle of the spot, whatever stands in it.
    pub fn spot_to_sidewalk_pos(&self, spot: ParkingSpot, net: &Network) -> (pos: Position)
        requires
            net.wf(),
            self.consistent_with(net),
            self@.has_spot(spot),
        ensures
            pos == self@.inventory.sidewalk_pos(spot, net),
    {
        self.inventory().spot_to_sidewalk_pos(spot, net)
    }
}

} // verus!
