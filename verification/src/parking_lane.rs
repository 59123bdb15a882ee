//! A parking lane with its curb-side spots.

use crate::ids::{Distance, LaneID};
use crate::network::{Lane, LaneType, Network, MAX_LENGTH, PARKING_SPOT_LENGTH, spec_number_parking_spots};
use crate::spot::ParkingSpot;
use crate::vehicle::Vehicle;
use vstd::prelude::*;

verus! {

/// A parking lane, bound to the driving lane that cars pull in from and to the
/// lane that people walk away on.
#[derive(Clone, Debug)]
pub struct ParkingLane {
    pub parking_lane: LaneID,
    pub driving_lane: LaneID,
    pub sidewalk: LaneID,
    /// For each spot the distance of its front, the end farther along the lane.
    pub spot_dist_along: Vec<Distance>,
}

/// A parking lane as contracts speak of it.
pub struct ParkingLaneView {
    pub parking_lane: LaneID,
    pub driving_lane: LaneID,
    pub sidewalk: LaneID,
    pub spot_dist_along: Seq<Distance>,
}

impl View for ParkingLane {
    type V = ParkingLaneView;

    open spec fn view(&self) -> ParkingLaneView {
        ParkingLaneView {
            parking_lane: self.parking_lane,
            driving_lane: self.driving_lane,
            sidewalk: self.sidewalk,
            spot_dist_along: self.spot_dist_along@,
        }
    }
}

/// Where the front of a spot lies on a lane of `num_spots` spots. The first spot
/// length of the lane stays clear; the last spot, of index `num_spots - 1`, fills
/// the second; spot 0 lies farthest along.
pub open spec fn spec_spot_front(num_spots: int, idx: int) -> int {
    (PARKING_SPOT_LENGTH as int) * (num_spots + 1 - idx)
}

/// Where the front of a vehicle stands that is centred in a spot: the spot's
/// front, less half of what the spot is longer than the vehicle.
pub open spec fn spec_front_of_car(spot_front: int, vehicle_length: int) -> int {
    spot_front - ((PARKING_SPOT_LENGTH as int) - vehicle_length) / 2
}

/// The fronts of the spots of a lane of the given length.
pub open spec fn spec_spot_fronts(lane_length: int) -> Seq<Distance> {
    Seq::new(
        spec_number_parking_spots(lane_length) as nat,
        |i: int| spec_spot_front(spec_number_parking_spots(lane_length), i) as u64,
    )
}

/// The parking lane that lane `l` of the network gives rise to: none unless it is
/// a parking lane whose driving lane is no blackhole and which has a lane to walk
/// on nearby.
pub open spec fn spec_parking_lane(net: &Network, l: int) -> Option<ParkingLaneView> {
    let lane = net.lanes@[l];
    let driving_lane = lane.driving_lane->0;
    if lane.lane_type is Parking && lane.driving_lane is Some && lane.sidewalk is Some
        && !net.lanes@[driving_lane.0 as int].driving_blackhole {
        Some(
            ParkingLaneView {
                parking_lane: lane.id,
                driving_lane,
                sidewalk: lane.sidewalk->0,
                spot_dist_along: spec_spot_fronts(lane.length as int),
            },
        )
    } else {
        None
    }
}

impl ParkingLaneView {
    /// The spots lie one spot length apart, spot 0 farthest along, and all on a
    /// lane of admissible length.
    pub open spec fn wf(self) -> bool {
        &&& (PARKING_SPOT_LENGTH as int) * (self.spot_dist_along.len() + 2) <= MAX_LENGTH
        &&& forall|i: int|
            0 <= i < self.spot_dist_along.len() ==> #[trigger] self.spot_dist_along[i]
                == spec_spot_front(self.spot_dist_along.len() as int, i)
    }

    /// The spots of the lane, by index.
    pub open spec fn spots(self) -> Seq<ParkingSpot> {
        Seq::new(
            self.spot_dist_along.len(),
            |i: int| ParkingSpot::Onstreet(self.parking_lane, i as usize),
        )
    }

    pub open spec fn dist_along_for_car(self, spot_idx: int, vehicle: Vehicle) -> int {
        spec_front_of_car(self.spot_dist_along[spot_idx] as int, vehicle.length as int)
    }
}

/// The parking lane of a well-formed network's lane is well formed.
pub proof fn lemma_parking_lane_wf(net: &Network, l: int)
    requires
        net.wf(),
        0 <= l < net.lanes@.len(),
        spec_parking_lane(net, l) is Some,
    ensures
        spec_parking_lane(net, l)->0.wf(),
        spec_parking_lane(net, l)->0.parking_lane == LaneID(l as usize),
        spec_parking_lane(net, l)->0.driving_lane.0 < net.lanes@.len(),
        spec_parking_lane(net, l)->0.sidewalk.0 < net.lanes@.len(),
{
    assert(net.lane_wf(l));
}

impl ParkingLane {
    /// The parking lane of a lane of the network, if the lane has one.
    pub fn new(lane: &Lane, net: &Network) -> (res: Option<ParkingLane>)
        requires
            net.wf(),
            lane.id.0 < net.lanes@.len(),
            net.lanes@[lane.id.0 as int] == *lane,
        ensures
            res is Some <==> spec_parking_lane(net, lane.id.0 as int) is Some,
            res matches Some(pl) ==> Some(pl@) == spec_parking_lane(net, lane.id.0 as int)
                && pl@.wf(),
    {
        proof {
            assert(net.lane_wf(lane.id.0 as int));
        }
        match lane.lane_type {
            LaneType::Parking => {},
            _ => {
                return None;
            },
        }
        let driving_lane = match lane.driving_lane {
            Some(l) => l,
            None => {
                return None;
            },
        };
        if net.lanes[driving_lane.0].driving_blackhole {
            return None;
        }
        let sidewalk = match lane.sidewalk {
            Some(l) => l,
            None => {
                return None;
            },
        };
        let n = lane.number_parking_spots();
        let mut spot_dist_along: Vec<Distance> = Vec::new();
        let mut idx: usize = 0;
        while idx < n
            invariant
                idx <= n,
                n == spec_number_parking_spots(lane.length as int),
                lane.length <= MAX_LENGTH,
                spot_dist_along@.len() == idx,
                forall|i: int|
                    0 <= i < idx ==> #[trigger] spot_dist_along@[i] == spec_spot_front(
                        n as int,
                        i,
                    ),
            decreases n - idx,
        {
            let k: u64 = (n - idx) as u64 + 1;
            spot_dist_along.push(PARKING_SPOT_LENGTH * k);
            idx += 1;
        }
        let pl = ParkingLane { parking_lane: lane.id, driving_lane, sidewalk, spot_dist_along };
        proof {
            assert(pl@.spot_dist_along =~= spec_spot_fronts(lane.length as int));
        }
        Some(pl)
    }

    /// Where the front of the vehicle stands when it is centred in the spot.
    pub fn dist_along_for_car(&self, spot_idx: usize, vehicle: &Vehicle) -> (dist: Distance)
        requires
            self@.wf(),
            spot_idx < self.spot_dist_along@.len(),
        ensures
            dist == self@.dist_along_for_car(spot_idx as int, *vehicle),
    {
        let front = self.spot_dist_along[spot_idx];
        if vehicle.length <= PARKING_SPOT_LENGTH {
            front - (PARKING_SPOT_LENGTH - vehicle.length) / 2
        } else {
            front + (vehicle.length - PARKING_SPOT_LENGTH + 1) / 2
        }
    }

    /// The middle of the spot, whatever stands in it.
    pub fn center_of_spot(&self, spot_idx: usize) -> (dist: Distance)
        requires
            self@.wf(),
            spot_idx < self.spot_dist_along@.len(),
        ensures
            dist == self.spot_dist_along@[spot_idx as int] - PARKING_SPOT_LENGTH / 2,
    {
        self.spot_dist_along[spot_idx] - PARKING_SPOT_LENGTH / 2
    }

    /// The spots of the lane, by index.
    pub fn spots(&self) -> (spots: Vec<ParkingSpot>)
        ensures
            spots@ == self@.spots(),
    {
        let mut spots: Vec<ParkingSpot> = Vec::new();
        let mut idx: usize = 0;
        while idx < self.spot_dist_along.len()
            invariant
                idx <= self.spot_dist_along@.len(),
                spots@.len() == idx,
                forall|i: int|
                    0 <= i < idx ==> #[trigger] spots@[i] == ParkingSpot::Onstreet(
                        self.parking_lane,
                        i as usize,
                    ),
            decreases self.spot_dist_along@.len() - idx,
        {
            spots.push(ParkingSpot::Onstreet(self.parking_lane, idx));
            idx += 1;
        }
        proof {
            assert(spots@ =~= self@.spots());
        }
        spots
    }
}

} // verus!
