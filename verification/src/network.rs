//! The road network as the parking logic reads it: lanes with their lengths,
//! neighbours and turns, buildings and parking lots with their connection points.

use crate::ids::{BuildingID, Distance, LaneID, ParkingLotID, TurnID};
use vstd::prelude::*;

verus! {

/// Length of one curb-side parking spot: eight metres.
pub const PARKING_SPOT_LENGTH: u64 = 80_000;

/// Length of one slot of a parking lot: 6.4 metres.
pub const PARKING_LOT_SPOT_LENGTH: u64 = 64_000;

/// No lane or turn is longer than this.
pub const MAX_LENGTH: u64 = 0x8000_0000;

/// No network has more lanes than this.
pub const MAX_LANES: usize = 0x8000_0000;

/// A point on a lane, given by the distance from the lane's start.
#[derive(Clone, Copy, Debug, PartialEq, Eq, Structural, PartialOrd, Ord, Hash)]
pub struct Position {
    pub lane: LaneID,
    pub dist_along: Distance,
}

/// What keeps a bike lane apart from the traffic beside it.
#[derive(Clone, Copy, Debug, PartialEq, Eq, Structural, PartialOrd, Ord, Hash)]
pub enum BufferType {
    Stripes,
    FlexPosts,
    Planters,
    JerseyBarrier,
    Curb,
}

/// What a lane is for.
#[derive(Clone, Copy, Debug, PartialEq, Eq, Structural, PartialOrd, Ord, Hash)]
pub enum LaneType {
    Driving,
    Parking,
    Sidewalk,
    Shoulder,
    Biking,
    Bus,
    SharedLeftTurn,
    Construction,
    LightRail,
    Buffer(BufferType),
}

/// A turn that cars may take from the end of a lane, with the length of its path
/// through the intersection.
#[derive(Clone, Copy, Debug, PartialEq, Eq, Structural)]
pub struct Turn {
    pub id: TurnID,
    pub length: Distance,
}

/// One lane of the network.
#[derive(Clone, Debug)]
pub struct Lane {
    pub id: LaneID,
    pub lane_type: LaneType,
    pub length: Distance,
    /// Set when cars that enter the lane can no longer reach most of the network.
    pub driving_blackhole: bool,
    /// For a parking lane: the driving lane of the same road from which cars pull
    /// into it.
    pub driving_lane: Option<LaneID>,
    /// The closest lane of the same road that people can walk on.
    pub sidewalk: Option<LaneID>,
    /// The turns that cars may take from the end of this lane.
    pub turns: Vec<Turn>,
}

/// The parking that a building offers off the street.
#[derive(Clone, Copy, Debug, PartialEq, Eq, Structural)]
pub enum OffstreetParking {
    /// A garage open to everybody, with its number of spots.
    PublicGarage(usize),
    /// Spots for trips that end at the building only, with their number.
    Private(usize),
}

/// One building of the network.
#[derive(Clone, Copy, Debug)]
pub struct Building {
    pub id: BuildingID,
    pub parking: OffstreetParking,
    /// Where cars leave the road for the building, if they can reach it at all.
    pub driving_connection: Option<Position>,
    /// Where people step from the building onto a walkable lane.
    pub sidewalk_pos: Position,
}

/// One surface parking lot of the network.
#[derive(Clone, Copy, Debug)]
pub struct ParkingLot {
    pub id: ParkingLotID,
    pub driving_pos: Position,
    pub sidewalk_pos: Position,
    /// Number of slots that have a point and an angle of their own, and so can be
    /// drawn. Their indices come first.
    pub drawn_spots: usize,
    /// Number of further slots, which have no geometry.
    pub extra_spots: usize,
}

/// The road network.
#[derive(Clone, Debug)]
pub struct Network {
    pub lanes: Vec<Lane>,
    pub buildings: Vec<Building>,
    pub parking_lots: Vec<ParkingLot>,
}

/// Number of curb-side spots on a parking lane of the given length: one per full
/// spot length, less the two next to the intersections.
pub open spec fn spec_number_parking_spots(length: int) -> int {
    if length / (PARKING_SPOT_LENGTH as int) >= 3 {
        length / (PARKING_SPOT_LENGTH as int) - 2
    } else {
        0
    }
}

/// A position moved over to a lane of the given length that runs beside its own,
/// for an object of the given length: kept where it is, but at least the object's
/// length from the start so that its tail stays on the lane, and at the lane's end
/// if the lane stops before the position.
pub open spec fn spec_equiv_dist(dist_along: int, lane_length: int, object_length: int) -> int {
    if dist_along < lane_length {
        if dist_along >= object_length {
            dist_along
        } else {
            object_length
        }
    } else {
        lane_length
    }
}

impl Position {
    pub fn new(lane: LaneID, dist_along: Distance) -> (pos: Position)
        ensures
            pos == (Position { lane, dist_along }),
    {
        Position { lane, dist_along }
    }

    /// The start of a lane.
    pub fn start(lane: LaneID) -> (pos: Position)
        ensures
            pos == (Position { lane, dist_along: 0 }),
    {
        Position { lane, dist_along: 0 }
    }

    pub fn lane(&self) -> (lane: LaneID)
        ensures
            lane == self.lane,
    {
        self.lane
    }

    pub fn dist_along(&self) -> (dist: Distance)
        ensures
            dist == self.dist_along,
    {
        self.dist_along
    }

    /// The position on `other_lane` that lies beside this one.
    pub open spec fn spec_equiv_pos(self, other_lane: LaneID, net: &Network) -> Position {
        self.spec_equiv_pos_for_long_object(other_lane, 0, net)
    }

    /// The position on `other_lane` at which an object of length `our_len` stands
    /// beside this position.
    pub open spec fn spec_equiv_pos_for_long_object(
        self,
        other_lane: LaneID,
        our_len: Distance,
        net: &Network,
    ) -> Position {
        Position {
            lane: other_lane,
            dist_along: spec_equiv_dist(
                self.dist_along as int,
                net.lanes@[other_lane.0 as int].length as int,
                our_len as int,
            ) as u64,
        }
    }

    pub fn equiv_pos(&self, other_lane: LaneID, net: &Network) -> (pos: Position)
        requires
            other_lane.0 < net.lanes@.len(),
        ensures
            pos == self.spec_equiv_pos(other_lane, net),
            pos.lane == other_lane,
            pos.dist_along <= self.dist_along,
            pos.dist_along <= net.lanes@[other_lane.0 as int].length,
    {
        self.equiv_pos_for_long_object(other_lane, 0, net)
    }

    pub fn equiv_pos_for_long_object(
        &self,
        other_lane: LaneID,
        our_len: Distance,
        net: &Network,
    ) -> (pos: Position)
        requires
            other_lane.0 < net.lanes@.len(),
        ensures
            pos == self.spec_equiv_pos_for_long_object(other_lane, our_len, net),
            pos.lane == other_lane,
            self.dist_along < net.lanes@[other_lane.0 as int].length ==> pos.dist_along
                >= our_len,
    {
        let len = net.lanes[other_lane.0].length;
        if self.dist_along < len {
            if self.dist_along >= our_len {
                Position { lane: other_lane, dist_along: self.dist_along }
            } else {
                Position { lane: other_lane, dist_along: our_len }
            }
        } else {
            Position { lane: other_lane, dist_along: len }
        }
    }
}

impl OffstreetParking {
    /// Number of spots, whoever may use them.
    pub open spec fn spec_num_spots(self) -> usize {
        match self {
            OffstreetParking::PublicGarage(n) => n,
            OffstreetParking::Private(n) => n,
        }
    }

    pub fn num_spots(&self) -> (n: usize)
        ensures
            n == self.spec_num_spots(),
    {
        match self {
            OffstreetParking::PublicGarage(n) => *n,
            OffstreetParking::Private(n) => *n,
        }
    }

    pub fn is_private(&self) -> (b: bool)
        ensures
            b == (self is Private),
    {
        match self {
            OffstreetParking::PublicGarage(_) => false,
            OffstreetParking::Private(_) => true,
        }
    }
}

impl Lane {
    /// Number of curb-side spots of a parking lane.
    pub fn number_parking_spots(&self) -> (n: usize)
        requires
            self.length <= MAX_LENGTH,
        ensures
            n == spec_number_parking_spots(self.length as int),
    {
        let whole: u64 = self.length / PARKING_SPOT_LENGTH;
        if whole >= 3 {
            (whole - 2) as usize
        } else {
            0
        }
    }

    /// Whether people can walk on the lane.
    pub fn is_walkable(&self) -> (b: bool)
        ensures
            b == (self.lane_type is Sidewalk || self.lane_type is Shoulder),
    {
        match self.lane_type {
            LaneType::Sidewalk => true,
            LaneType::Shoulder => true,
            _ => false,
        }
    }
}

impl Network {
    /// The turn is one from the lane that lists it, to a lane of the network.
    pub open spec fn turn_wf(&self, i: int, j: int) -> bool {
        let t = self.lanes@[i].turns@[j];
        &&& t.id.src.0 == i
        &&& t.id.dst.0 < self.lanes@.len()
        &&& t.length <= MAX_LENGTH
    }

    /// The lane stands at the index that its identifier gives, names lanes of the
    /// network only, and, if it is a parking lane, has a driving lane.
    pub open spec fn lane_wf(&self, i: int) -> bool {
        let lane = self.lanes@[i];
        &&& lane.id.0 == i
        &&& lane.length <= MAX_LENGTH
        &&& (lane.driving_lane matches Some(d) ==> d.0 < self.lanes@.len())
        &&& (lane.sidewalk matches Some(s) ==> s.0 < self.lanes@.len())
        &&& (lane.lane_type is Parking ==> lane.driving_lane is Some)
        &&& forall|j: int| 0 <= j < lane.turns@.len() ==> #[trigger] self.turn_wf(i, j)
    }

    pub open spec fn building_wf(&self, i: int) -> bool {
        let b = self.buildings@[i];
        &&& b.id.0 == i
        &&& (b.driving_connection matches Some(pos) ==> pos.lane.0 < self.lanes@.len())
        &&& b.sidewalk_pos.lane.0 < self.lanes@.len()
    }

    pub open spec fn lot_wf(&self, i: int) -> bool {
        let pl = self.parking_lots@[i];
        &&& pl.id.0 == i
        &&& pl.driving_pos.lane.0 < self.lanes@.len()
        &&& pl.sidewalk_pos.lane.0 < self.lanes@.len()
        &&& pl.spec_capacity() <= usize::MAX
    }

    /// What every network must satisfy before the parking logic reads it.
    pub open spec fn wf(&self) -> bool {
        &&& self.lanes@.len() <= MAX_LANES
        &&& forall|i: int| 0 <= i < self.lanes@.len() ==> #[trigger] self.lane_wf(i)
        &&& forall|i: int| 0 <= i < self.buildings@.len() ==> #[trigger] self.building_wf(i)
        &&& forall|i: int| 0 <= i < self.parking_lots@.len() ==> #[trigger] self.lot_wf(i)
    }

    fn lane_is_valid(&self, i: usize) -> (ok: bool)
        requires
            i < self.lanes@.len(),
        ensures
            ok == self.lane_wf(i as int),
    {
        let lane = &self.lanes[i];
        let n = self.lanes.len();
        if lane.id.0 != i || lane.length > MAX_LENGTH {
            return false;
        }
        match lane.driving_lane {
            Some(d) => {
                if d.0 >= n {
                    return false;
                }
            },
            None => {
                if let LaneType::Parking = lane.lane_type {
                    return false;
                }
            },
        }
        if let Some(s) = lane.sidewalk {
            if s.0 >= n {
                return false;
            }
        }
        let mut j: usize = 0;
        while j < lane.turns.len()
            invariant
                i < self.lanes@.len(),
                n == self.lanes@.len(),
                lane == self.lanes@[i as int],
                j <= lane.turns@.len(),
                forall|k: int| 0 <= k < j ==> #[trigger] self.turn_wf(i as int, k),
            decreases lane.turns@.len() - j,
        {
            let t = &lane.turns[j];
            if t.id.src.0 != i || t.id.dst.0 >= n || t.length > MAX_LENGTH {
                assert(!self.turn_wf(i as int, j as int));
                return false;
            }
            j += 1;
        }
        true
    }

    fn building_is_valid(&self, i: usize) -> (ok: bool)
        requires
            i < self.buildings@.len(),
        ensures
            ok == self.building_wf(i as int),
    {
        let b = &self.buildings[i];
        let n = self.lanes.len();
        if b.id.0 != i || b.sidewalk_pos.lane.0 >= n {
            return false;
        }
        match b.driving_connection {
            Some(pos) => pos.lane.0 < n,
            None => true,
        }
    }

    fn lot_is_valid(&self, i: usize) -> (ok: bool)
        requires
            i < self.parking_lots@.len(),
        ensures
            ok == self.lot_wf(i as int),
    {
        let pl = &self.parking_lots[i];
        let n = self.lanes.len();
        pl.id.0 == i && pl.driving_pos.lane.0 < n && pl.sidewalk_pos.lane.0 < n
            && pl.extra_spots <= usize::MAX - pl.drawn_spots
    }

    /// Decides whether the network is well formed.
    pub fn is_valid(&self) -> (ok: bool)
        ensures
            ok == self.wf(),
    {
        if self.lanes.len() > MAX_LANES {
            return false;
        }
        let mut i: usize = 0;
        while i < self.lanes.len()
            invariant
                i <= self.lanes@.len(),
                forall|k: int| 0 <= k < i ==> #[trigger] self.lane_wf(k),
            decreases self.lanes@.len() - i,
        {
            if !self.lane_is_valid(i) {
                return false;
            }
            i += 1;
        }
        let mut i: usize = 0;
        while i < self.buildings.len()
            invariant
                i <= self.buildings@.len(),
                forall|k: int| 0 <= k < self.lanes@.len() ==> #[trigger] self.lane_wf(k),
                forall|k: int| 0 <= k < i ==> #[trigger] self.building_wf(k),
            decreases self.buildings@.len() - i,
        {
            if !self.building_is_valid(i) {
                return false;
            }
            i += 1;
        }
        let mut i: usize = 0;
        while i < self.parking_lots.len()
            invariant
                i <= self.parking_lots@.len(),
                forall|k: int| 0 <= k < self.lanes@.len() ==> #[trigger] self.lane_wf(k),
                forall|k: int| 0 <= k < self.buildings@.len() ==> #[trigger] self.building_wf(k),
                forall|k: int| 0 <= k < i ==> #[trigger] self.lot_wf(k),
            decreases self.parking_lots@.len() - i,
        {
            if !self.lot_is_valid(i) {
                return false;
            }
            i += 1;
        }
        true
    }
}

impl ParkingLot {
    pub open spec fn spec_capacity(self) -> int {
        self.drawn_spots + self.extra_spots
    }

    /// Number of slots, drawn or not.
    pub fn capacity(&self) -> (n: usize)
        requires
            self.spec_capacity() <= usize::MAX,
        ensures
            n == self.spec_capacity(),
    {
        self.drawn_spots + self.extra_spots
    }
}

} // verus!
