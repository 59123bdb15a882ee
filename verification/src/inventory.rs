//! The registry of every parking spot that a network offers.
//!
//! Spots behind a blackhole are left out: a car parked there could not drive
//! back into the network.

use crate::ids::{BuildingID, Distance, LaneID, ParkingLotID};
use crate::network::{Network, Position, PARKING_SPOT_LENGTH};
use crate::ordered::{keys_in_order, strictly_ascending};
use crate::vehicle::Vehicle;
use crate::parking_lane::{ParkingLane, ParkingLaneView, lemma_parking_lane_wf, spec_parking_lane};
use crate::spot::ParkingSpot;
use std::collections::BTreeMap;
use vstd::prelude::*;

verus! {

/// The spots of a network, and for each driving lane what can be reached from it.
#[derive(Clone, Debug)]
pub struct Inventory {
    onstreet_lanes: BTreeMap<usize, ParkingLane>,
    driving_to_parking_lanes: BTreeMap<usize, Vec<LaneID>>,
    num_spots_per_offstreet: BTreeMap<usize, usize>,
    driving_to_offstreet: BTreeMap<usize, Vec<(BuildingID, Distance)>>,
    num_spots_per_lot: BTreeMap<usize, usize>,
    driving_to_lots: BTreeMap<usize, Vec<ParkingLotID>>,
}

/// The inventory as contracts speak of it.
pub struct InventoryView {
    /// The parking lanes that have spots to offer.
    pub onstreet: Map<LaneID, ParkingLaneView>,
    /// For a driving lane, the parking lanes that cars pull into from it.
    pub parking_lanes_by_driving: Map<LaneID, Seq<LaneID>>,
    /// The number of spots of each building that has any.
    pub offstreet: Map<BuildingID, usize>,
    /// For a driving lane, the buildings that cars reach from it, each with the
    /// distance along the lane at which they leave it.
    pub offstreet_by_driving: Map<LaneID, Seq<(BuildingID, Distance)>>,
    /// The number of slots of each parking lot.
    pub lots: Map<ParkingLotID, usize>,
    /// For a driving lane, the parking lots that cars reach from it.
    pub lots_by_driving: Map<LaneID, Seq<ParkingLotID>>,
}

impl InventoryView {
    pub open spec fn parking_lanes_on(self, d: LaneID) -> Seq<LaneID> {
        if self.parking_lanes_by_driving.contains_key(d) {
            self.parking_lanes_by_driving[d]
        } else {
            Seq::empty()
        }
    }

    pub open spec fn offstreet_on(self, d: LaneID) -> Seq<(BuildingID, Distance)> {
        if self.offstreet_by_driving.contains_key(d) {
            self.offstreet_by_driving[d]
        } else {
            Seq::empty()
        }
    }

    pub open spec fn lots_on(self, d: LaneID) -> Seq<ParkingLotID> {
        if self.lots_by_driving.contains_key(d) {
            self.lots_by_driving[d]
        } else {
            Seq::empty()
        }
    }

    /// Number of spots that the lane, building or lot of a spot offers.
    pub open spec fn capacity_for(self, spot: ParkingSpot) -> int {
        match spot {
            ParkingSpot::Onstreet(l, _) => if self.onstreet.contains_key(l) {
                self.onstreet[l].spot_dist_along.len() as int
            } else {
                0
            },
            ParkingSpot::Offstreet(b, _) => if self.offstreet.contains_key(b) {
                self.offstreet[b] as int
            } else {
                0
            },
            ParkingSpot::Lot(pl, _) => if self.lots.contains_key(pl) {
                self.lots[pl] as int
            } else {
                0
            },
        }
    }

    /// The spot exists: its index lies within the capacity of its lane, building
    /// or lot.
    pub open spec fn has_spot(self, spot: ParkingSpot) -> bool {
        spot.spec_index() < self.capacity_for(spot)
    }

    /// The set of all spots.
    pub open spec fn spots(self) -> Set<ParkingSpot> {
        Set::new(|spot: ParkingSpot| self.has_spot(spot))
    }

    /// The spot is the last of its lane, building or lot: the one of the highest
    /// index.
    pub open spec fn is_last_spot(self, spot: ParkingSpot) -> bool {
        spot.spec_index() + 1 == self.capacity_for(spot)
    }

    /// The set of the last spots of all lanes, buildings and lots that have
    /// spots. It says which spots there are.
    pub open spec fn last_spots(self) -> Set<ParkingSpot> {
        Set::new(|spot: ParkingSpot| self.is_last_spot(spot))
    }

    /// No lane, building or lot has more spots than can be counted.
    pub open spec fn capacities_fit(self) -> bool {
        forall|spot: ParkingSpot| #[trigger] self.capacity_for(spot) <= usize::MAX
    }

    /// Where a vehicle leaves the driving lane for a spot. For a spot on the
    /// street, the vehicle is centred in the spot, and its front is moved over to
    /// the driving lane so that its tail does not reach behind the lane's start.
    /// All spots of a building share the point where cars reach the building, and
    /// all slots of a lot the point where cars reach the lot.
    pub open spec fn driving_pos(self, spot: ParkingSpot, vehicle: Vehicle, net: &Network) -> Position {
        match spot {
            ParkingSpot::Onstreet(l, idx) => {
                let lane = self.onstreet[l];
                (Position {
                    lane: l,
                    dist_along: lane.dist_along_for_car(idx as int, vehicle) as u64,
                }).spec_equiv_pos_for_long_object(lane.driving_lane, vehicle.length, net)
            },
            ParkingSpot::Offstreet(b, _) => {
                let bldg = net.buildings@[b.0 as int];
                bldg.driving_connection->0
            },
            ParkingSpot::Lot(pl, _) => net.parking_lots@[pl.0 as int].driving_pos,
        }
    }

    /// Where a person steps onto a walkable lane from a spot. For a spot on the
    /// street this is beside the middle of the spot, whatever stands in it.
    pub open spec fn sidewalk_pos(self, spot: ParkingSpot, net: &Network) -> Position {
        match spot {
            ParkingSpot::Onstreet(l, idx) => {
                let lane = self.onstreet[l];
                (Position {
                    lane: l,
                    dist_along: (lane.spot_dist_along[idx as int] - PARKING_SPOT_LENGTH / 2) as u64,
                }).spec_equiv_pos(lane.sidewalk, net)
            },
            ParkingSpot::Offstreet(b, _) => net.buildings@[b.0 as int].sidewalk_pos,
            ParkingSpot::Lot(pl, _) => net.parking_lots@[pl.0 as int].sidewalk_pos,
        }
    }
}

/// What a building brings to the inventory.
pub struct OffstreetEntry {
    /// Where cars leave the road for the building.
    pub driving_pos: Position,
    pub num_spots: usize,
}

/// The spots that building `b` of the network brings to the inventory: none
/// unless cars can reach the building, over a lane that is no blackhole, and it
/// has a spot.
pub open spec fn spec_offstreet_entry(net: &Network, b: int) -> Option<OffstreetEntry> {
    let bldg = net.buildings@[b];
    let pos = bldg.driving_connection->0;
    if bldg.driving_connection is Some && !net.lanes@[pos.lane.0 as int].driving_blackhole
        && bldg.parking.spec_num_spots() > 0 {
        Some(OffstreetEntry { driving_pos: pos, num_spots: bldg.parking.spec_num_spots() })
    } else {
        None
    }
}

/// The slots that parking lot `pl` of the network brings to the inventory: none if
/// cars reach it over a blackhole.
pub open spec fn spec_lot_entry(net: &Network, pl: int) -> Option<usize> {
    let lot = net.parking_lots@[pl];
    if !net.lanes@[lot.driving_pos.lane.0 as int].driving_blackhole {
        Some(lot.spec_capacity() as usize)
    } else {
        None
    }
}

/// The parking lanes among the first `n` lanes that cars pull into from driving
/// lane `d`, in rising order.
pub open spec fn spec_parking_lanes_on(net: &Network, d: LaneID, n: int) -> Seq<LaneID>
    decreases n,
{
    if n <= 0 {
        Seq::empty()
    } else {
        let rest = spec_parking_lanes_on(net, d, n - 1);
        let pl = spec_parking_lane(net, n - 1);
        if pl is Some && pl->0.driving_lane == d {
            rest.push(LaneID((n - 1) as usize))
        } else {
            rest
        }
    }
}

/// The buildings with spots among the first `n` that cars reach from driving lane
/// `d`, in rising order.
pub open spec fn spec_offstreet_on(net: &Network, d: LaneID, n: int) -> Seq<(BuildingID, Distance)>
    decreases n,
{
    if n <= 0 {
        Seq::empty()
    } else {
        let rest = spec_offstreet_on(net, d, n - 1);
        let e = spec_offstreet_entry(net, n - 1);
        if e is Some && e->0.driving_pos.lane == d {
            rest.push((BuildingID((n - 1) as usize), e->0.driving_pos.dist_along))
        } else {
            rest
        }
    }
}

/// The parking lots among the first `n` that cars reach from driving lane `d`, in
/// rising order.
pub open spec fn spec_lots_on(net: &Network, d: LaneID, n: int) -> Seq<ParkingLotID>
    decreases n,
{
    if n <= 0 {
        Seq::empty()
    } else {
        let rest = spec_lots_on(net, d, n - 1);
        if spec_lot_entry(net, n - 1) is Some && net.parking_lots@[n - 1].driving_pos.lane == d {
            rest.push(ParkingLotID((n - 1) as usize))
        } else {
            rest
        }
    }
}

/// The inventory of a network.
pub open spec fn spec_inventory(net: &Network) -> InventoryView {
    InventoryView {
        onstreet: Map::new(
            |l: LaneID| l.0 < net.lanes@.len() && spec_parking_lane(net, l.0 as int) is Some,
            |l: LaneID| spec_parking_lane(net, l.0 as int)->0,
        ),
        parking_lanes_by_driving: Map::new(
            |d: LaneID| spec_parking_lanes_on(net, d, net.lanes@.len() as int).len() > 0,
            |d: LaneID| spec_parking_lanes_on(net, d, net.lanes@.len() as int),
        ),
        offstreet: Map::new(
            |b: BuildingID|
                b.0 < net.buildings@.len() && spec_offstreet_entry(net, b.0 as int) is Some,
            |b: BuildingID| spec_offstreet_entry(net, b.0 as int)->0.num_spots,
        ),
        offstreet_by_driving: Map::new(
            |d: LaneID| spec_offstreet_on(net, d, net.buildings@.len() as int).len() > 0,
            |d: LaneID| spec_offstreet_on(net, d, net.buildings@.len() as int),
        ),
        lots: Map::new(
            |pl: ParkingLotID|
                pl.0 < net.parking_lots@.len() && spec_lot_entry(net, pl.0 as int) is Some,
            |pl: ParkingLotID| spec_lot_entry(net, pl.0 as int)->0,
        ),
        lots_by_driving: Map::new(
            |d: LaneID| spec_lots_on(net, d, net.parking_lots@.len() as int).len() > 0,
            |d: LaneID| spec_lots_on(net, d, net.parking_lots@.len() as int),
        ),
    }
}

/// Appends a value to the list that a table keeps under a key.
fn push_under<T>(table: &mut BTreeMap<usize, Vec<T>>, key: usize, value: T)
    ensures
        final(table)@.dom() == old(table)@.dom().insert(key),
        final(table)@[key]@ == (if old(table)@.contains_key(key) {
            old(table)@[key]@
        } else {
            Seq::empty()
        }).push(value),
        forall|k: usize| k != key && old(table)@.contains_key(k) ==> final(table)@[k] == old(table)@[k],
{
    let mut list = match table.remove(&key) {
        Some(list) => list,
        None => Vec::new(),
    };
    list.push(value);
    table.insert(key, list);
}

impl View for Inventory {
    type V = InventoryView;

    closed spec fn view(&self) -> InventoryView {
        InventoryView {
            onstreet: Map::new(
                |l: LaneID| self.onstreet_lanes@.contains_key(l.0),
                |l: LaneID| self.onstreet_lanes@[l.0]@,
            ),
            parking_lanes_by_driving: Map::new(
                |d: LaneID| self.driving_to_parking_lanes@.contains_key(d.0),
                |d: LaneID| self.driving_to_parking_lanes@[d.0]@,
            ),
            offstreet: Map::new(
                |b: BuildingID| self.num_spots_per_offstreet@.contains_key(b.0),
                |b: BuildingID| self.num_spots_per_offstreet@[b.0],
            ),
            offstreet_by_driving: Map::new(
                |d: LaneID| self.driving_to_offstreet@.contains_key(d.0),
                |d: LaneID| self.driving_to_offstreet@[d.0]@,
            ),
            lots: Map::new(
                |pl: ParkingLotID| self.num_spots_per_lot@.contains_key(pl.0),
                |pl: ParkingLotID| self.num_spots_per_lot@[pl.0],
            ),
            lots_by_driving: Map::new(
                |d: LaneID| self.driving_to_lots@.contains_key(d.0),
                |d: LaneID| self.driving_to_lots@[d.0]@,
            ),
        }
    }
}

impl Inventory {
    /// The inventory holds what the network offers.
    pub open spec fn built_from(&self, net: &Network) -> bool {
        self@ == spec_inventory(net)
    }

    /// No lane, building or lot of an inventory has more spots than can be
    /// counted.
    pub proof fn lemma_capacities_fit(&self)
        ensures
            self@.capacities_fit(),
    {
        assert forall|spot: ParkingSpot| #[trigger] self@.capacity_for(spot) <= usize::MAX by {
            match spot {
                ParkingSpot::Onstreet(l, _) => {
                    if self@.onstreet.contains_key(l) {
                        assert(self.onstreet_lanes@[l.0].spot_dist_along.len() <= usize::MAX);
                    }
                },
                _ => {},
            }
        }
    }

    /// Takes stock of a network.
    pub fn new(net: &Network) -> (inv: Inventory)
        requires
            net.wf(),
        ensures
            inv.built_from(net),
    {
        let mut inv = Inventory {
            onstreet_lanes: BTreeMap::new(),
            driving_to_parking_lanes: BTreeMap::new(),
            num_spots_per_offstreet: BTreeMap::new(),
            driving_to_offstreet: BTreeMap::new(),
            num_spots_per_lot: BTreeMap::new(),
            driving_to_lots: BTreeMap::new(),
        };
        let mut i: usize = 0;
        while i < net.lanes.len()
            invariant
                net.wf(),
                i <= net.lanes@.len(),
                forall|l: usize| #[trigger]
                    inv.onstreet_lanes@.contains_key(l) <==> l < i && spec_parking_lane(
                        net,
                        l as int,
                    ) is Some,
                forall|l: usize| #[trigger]
                    inv.onstreet_lanes@.contains_key(l) ==> Some(inv.onstreet_lanes@[l]@)
                        == spec_parking_lane(net, l as int),
                forall|d: usize| #[trigger]
                    inv.driving_to_parking_lanes@.contains_key(d) <==> spec_parking_lanes_on(
                        net,
                        LaneID(d),
                        i as int,
                    ).len() > 0,
                forall|d: usize| #[trigger]
                    inv.driving_to_parking_lanes@.contains_key(d)
                        ==> inv.driving_to_parking_lanes@[d]@ == spec_parking_lanes_on(
                        net,
                        LaneID(d),
                        i as int,
                    ),
                inv.num_spots_per_offstreet@ == Map::<usize, usize>::empty(),
                inv.driving_to_offstreet@ == Map::<usize, Vec<(BuildingID, Distance)>>::empty(),
                inv.num_spots_per_lot@ == Map::<usize, usize>::empty(),
                inv.driving_to_lots@ == Map::<usize, Vec<ParkingLotID>>::empty(),
            decreases net.lanes@.len() - i,
        {
            proof {
                assert(net.lane_wf(i as int));
            }
            if let Some(lane) = ParkingLane::new(&net.lanes[i], net) {
                push_under(&mut inv.driving_to_parking_lanes, lane.driving_lane.0, LaneID(i));
                inv.onstreet_lanes.insert(i, lane);
            }
            i += 1;
        }
        let mut i: usize = 0;
        while i < net.buildings.len()
            invariant
                net.wf(),
                i <= net.buildings@.len(),
                inv@.onstreet == spec_inventory(net).onstreet,
                inv@.parking_lanes_by_driving == spec_inventory(net).parking_lanes_by_driving,
                forall|b: usize| #[trigger]
                    inv.num_spots_per_offstreet@.contains_key(b) <==> b < i
                        && spec_offstreet_entry(net, b as int) is Some,
                forall|b: usize| #[trigger]
                    inv.num_spots_per_offstreet@.contains_key(b)
                        ==> inv.num_spots_per_offstreet@[b] == spec_offstreet_entry(
                        net,
                        b as int,
                    )->0.num_spots,
                forall|d: usize| #[trigger]
                    inv.driving_to_offstreet@.contains_key(d) <==> spec_offstreet_on(
                        net,
                        LaneID(d),
                        i as int,
                    ).len() > 0,
                forall|d: usize| #[trigger]
                    inv.driving_to_offstreet@.contains_key(d) ==> inv.driving_to_offstreet@[d]@
                        == spec_offstreet_on(net, LaneID(d), i as int),
                inv.num_spots_per_lot@ == Map::<usize, usize>::empty(),
                inv.driving_to_lots@ == Map::<usize, Vec<ParkingLotID>>::empty(),
            decreases net.buildings@.len() - i,
        {
            proof {
                assert(net.building_wf(i as int));
            }
            let b = &net.buildings[i];
            if let Some(pos) = b.driving_connection {
                if !net.lanes[pos.lane.0].driving_blackhole {
                    let num_spots = b.parking.num_spots();
                    if num_spots > 0 {
                        inv.num_spots_per_offstreet.insert(i, num_spots);
                        push_under(
                            &mut inv.driving_to_offstreet,
                            pos.lane.0,
                            (BuildingID(i), pos.dist_along),
                        );
                    }
                }
            }
            i += 1;
        }
        let mut i: usize = 0;
        while i < net.parking_lots.len()
            invariant
                net.wf(),
                i <= net.parking_lots@.len(),
                inv@.onstreet == spec_inventory(net).onstreet,
                inv@.parking_lanes_by_driving == spec_inventory(net).parking_lanes_by_driving,
                inv@.offstreet == spec_inventory(net).offstreet,
                inv@.offstreet_by_driving == spec_inventory(net).offstreet_by_driving,
                forall|pl: usize| #[trigger]
                    inv.num_spots_per_lot@.contains_key(pl) <==> pl < i && spec_lot_entry(
                        net,
                        pl as int,
                    ) is Some,
                forall|pl: usize| #[trigger]
                    inv.num_spots_per_lot@.contains_key(pl) ==> Some(inv.num_spots_per_lot@[pl])
                        == spec_lot_entry(net, pl as int),
                forall|d: usize| #[trigger]
                    inv.driving_to_lots@.contains_key(d) <==> spec_lots_on(
                        net,
                        LaneID(d),
                        i as int,
                    ).len() > 0,
                forall|d: usize| #[trigger]
                    inv.driving_to_lots@.contains_key(d) ==> inv.driving_to_lots@[d]@
                        == spec_lots_on(net, LaneID(d), i as int),
            decreases net.parking_lots@.len() - i,
        {
            proof {
                assert(net.lot_wf(i as int));
            }
            let pl = &net.parking_lots[i];
            if !net.lanes[pl.driving_pos.lane.0].driving_blackhole {
                inv.num_spots_per_lot.insert(i, pl.capacity());
                push_under(&mut inv.driving_to_lots, pl.driving_pos.lane.0, ParkingLotID(i));
            }
            i += 1;
        }
        proof {
            assert(inv@.lots =~= spec_inventory(net).lots);
            assert(inv@.lots_by_driving =~= spec_inventory(net).lots_by_driving);
        }
        inv
    }

    /// The parking lane with spots under the given identifier, if there is one.
    pub fn onstreet_lane(&self, l: LaneID) -> (res: Option<&ParkingLane>)
        ensures
            res is Some <==> self@.onstreet.contains_key(l),
            res matches Some(pl) ==> pl@ == self@.onstreet[l],
    {
        self.onstreet_lanes.get(&l.0)
    }

    /// Number of spots on a parking lane; zero for any other lane.
    pub fn num_onstreet_spots(&self, l: LaneID) -> (n: usize)
        ensures
            n == self@.capacity_for(ParkingSpot::Onstreet(l, 0)),
    {
        match self.onstreet_lanes.get(&l.0) {
            Some(lane) => lane.spot_dist_along.len(),
            None => 0,
        }
    }

    /// Number of spots of a building; zero where it has none in the inventory.
    pub fn num_offstreet_spots(&self, b: BuildingID) -> (n: usize)
        ensures
            n == self@.capacity_for(ParkingSpot::Offstreet(b, 0)),
    {
        match self.num_spots_per_offstreet.get(&b.0) {
            Some(n) => *n,
            None => 0,
        }
    }

    /// Number of slots of a parking lot; zero where it is not in the inventory.
    pub fn num_lot_spots(&self, pl: ParkingLotID) -> (n: usize)
        ensures
            n == self@.capacity_for(ParkingSpot::Lot(pl, 0)),
    {
        match self.num_spots_per_lot.get(&pl.0) {
            Some(n) => *n,
            None => 0,
        }
    }

    /// Number of spots of the lane (tag 0), building (tag 1) or lot (tag 2)
    /// of the given number.
    pub fn capacity(&self, tag: u8, owner: usize) -> (n: usize)
        ensures
            n == self@.capacity_for(ParkingSpot::spec_from_key((tag, owner, 0))),
    {
        if tag == 0 {
            self.num_onstreet_spots(LaneID(owner))
        } else if tag == 1 {
            self.num_offstreet_spots(BuildingID(owner))
        } else {
            self.num_lot_spots(ParkingLotID(owner))
        }
    }

    /// The numbers of the lanes (tag 0), buildings (tag 1) or lots (tag 2)
    /// that have spots, in rising order.
    pub fn owners(&self, tag: u8) -> (owners: Vec<usize>)
        ensures
            strictly_ascending(owners@),
            forall|o: usize|
                self@.capacity_for(#[trigger] ParkingSpot::spec_from_key((tag, o, 0))) > 0
                    ==> owners@.contains(o),
    {
        if tag == 0 {
            keys_in_order(&self.onstreet_lanes)
        } else if tag == 1 {
            keys_in_order(&self.num_spots_per_offstreet)
        } else {
            keys_in_order(&self.num_spots_per_lot)
        }
    }

    /// Whether the spot exists.
    pub fn has_spot(&self, spot: ParkingSpot) -> (b: bool)
        ensures
            b == self@.has_spot(spot),
    {
        match spot {
            ParkingSpot::Onstreet(l, idx) => idx < self.num_onstreet_spots(l),
            ParkingSpot::Offstreet(b, idx) => idx < self.num_offstreet_spots(b),
            ParkingSpot::Lot(pl, idx) => idx < self.num_lot_spots(pl),
        }
    }

    /// The parking lanes along a driving lane; `None` where there is none.
    pub fn parking_lanes_on(&self, d: LaneID) -> (res: Option<&Vec<LaneID>>)
        ensures
            match res {
                Some(lanes) => lanes@ == self@.parking_lanes_on(d),
                None => self@.parking_lanes_on(d).len() == 0,
            },
    {
        self.driving_to_parking_lanes.get(&d.0)
    }

    /// The buildings along a driving lane; `None` where there is none.
    pub fn offstreet_on(&self, d: LaneID) -> (res: Option<&Vec<(BuildingID, Distance)>>)
        ensures
            match res {
                Some(bldgs) => bldgs@ == self@.offstreet_on(d),
                None => self@.offstreet_on(d).len() == 0,
            },
    {
        self.driving_to_offstreet.get(&d.0)
    }

    /// The parking lots along a driving lane; `None` where there is none.
    pub fn lots_on(&self, d: LaneID) -> (res: Option<&Vec<ParkingLotID>>)
        ensures
            match res {
                Some(lots) => lots@ == self@.lots_on(d),
                None => self@.lots_on(d).len() == 0,
            },
    {
        self.driving_to_lots.get(&d.0)
    }
}

/// The parking lanes listed for a driving lane are exactly those that are bound to
/// it, each once, in rising order.
pub proof fn lemma_parking_lanes_on(net: &Network, d: LaneID, n: int)
    requires
        0 <= n <= net.lanes@.len(),
    ensures
        forall|i: int|
            #![trigger spec_parking_lanes_on(net, d, n)[i]]
            0 <= i < spec_parking_lanes_on(net, d, n).len() ==> {
                let l = spec_parking_lanes_on(net, d, n)[i];
                &&& l.0 < n
                &&& spec_parking_lane(net, l.0 as int) is Some
                &&& spec_parking_lane(net, l.0 as int)->0.driving_lane == d
            },
        forall|l: int|
            0 <= l < n && (#[trigger] spec_parking_lane(net, l)) is Some && spec_parking_lane(
                net,
                l,
            )->0.driving_lane == d ==> spec_parking_lanes_on(net, d, n).contains(
                LaneID(l as usize),
            ),
        forall|i: int, j: int|
            0 <= i < j < spec_parking_lanes_on(net, d, n).len() ==> spec_parking_lanes_on(
                net,
                d,
                n,
            )[i].0 < spec_parking_lanes_on(net, d, n)[j].0,
    decreases n,
{
    if n > 0 {
        lemma_parking_lanes_on(net, d, n - 1);
        let rest = spec_parking_lanes_on(net, d, n - 1);
        let all = spec_parking_lanes_on(net, d, n);
        assert(net.lanes.len() <= usize::MAX);
        assert forall|i: int| 0 <= i < all.len() implies {
            let l = #[trigger] all[i];
            &&& l.0 < n
            &&& spec_parking_lane(net, l.0 as int) is Some
            &&& spec_parking_lane(net, l.0 as int)->0.driving_lane == d
        } by {
            if i < rest.len() {
                assert(all[i] == rest[i]);
            }
        }
        assert forall|i: int, j: int| 0 <= i < j < all.len() implies all[i].0 < all[j].0 by {
            assert(all[i] == rest[i]);
            if j < rest.len() {
                assert(all[j] == rest[j]);
            }
        }
        assert forall|l: int|
            0 <= l < n && (#[trigger] spec_parking_lane(net, l)) is Some && spec_parking_lane(
                net,
                l,
            )->0.driving_lane == d implies all.contains(LaneID(l as usize)) by {
            if l < n - 1 {
                let i = choose|i: int| 0 <= i < rest.len() && rest[i] == LaneID(l as usize);
                assert(all[i] == LaneID(l as usize));
            } else {
                assert(all[all.len() - 1] == LaneID(l as usize));
            }
        }
    }
}

/// The buildings listed for a driving lane are exactly those of the inventory that
/// cars reach from it, each once, in rising order, with the distance at which they
/// leave the lane.
pub proof fn lemma_offstreet_on(net: &Network, d: LaneID, n: int)
    requires
        0 <= n <= net.buildings@.len(),
    ensures
        forall|i: int|
            #![trigger spec_offstreet_on(net, d, n)[i]]
            0 <= i < spec_offstreet_on(net, d, n).len() ==> {
                let (b, dist) = spec_offstreet_on(net, d, n)[i];
                &&& b.0 < n
                &&& spec_offstreet_entry(net, b.0 as int) is Some
                &&& spec_offstreet_entry(net, b.0 as int)->0.driving_pos == (Position {
                    lane: d,
                    dist_along: dist,
                })
            },
        forall|b: int|
            0 <= b < n && (#[trigger] spec_offstreet_entry(net, b)) is Some
                && spec_offstreet_entry(net, b)->0.driving_pos.lane == d ==> spec_offstreet_on(
                net,
                d,
                n,
            ).contains(
                (BuildingID(b as usize), spec_offstreet_entry(net, b)->0.driving_pos.dist_along),
            ),
        forall|i: int, j: int|
            0 <= i < j < spec_offstreet_on(net, d, n).len() ==> spec_offstreet_on(
                net,
                d,
                n,
            )[i].0.0 < spec_offstreet_on(net, d, n)[j].0.0,
    decreases n,
{
    if n > 0 {
        lemma_offstreet_on(net, d, n - 1);
        let rest = spec_offstreet_on(net, d, n - 1);
        let all = spec_offstreet_on(net, d, n);
        assert(net.buildings.len() <= usize::MAX);
        assert forall|i: int| 0 <= i < all.len() implies {
            let (b, dist) = #[trigger] all[i];
            &&& b.0 < n
            &&& spec_offstreet_entry(net, b.0 as int) is Some
            &&& spec_offstreet_entry(net, b.0 as int)->0.driving_pos == (Position {
                lane: d,
                dist_along: dist,
            })
        } by {
            if i < rest.len() {
                assert(all[i] == rest[i]);
            }
        }
        assert forall|i: int, j: int| 0 <= i < j < all.len() implies all[i].0.0 < all[j].0.0 by {
            assert(all[i] == rest[i]);
            if j < rest.len() {
                assert(all[j] == rest[j]);
            }
        }
        assert forall|b: int|
            0 <= b < n && (#[trigger] spec_offstreet_entry(net, b)) is Some
                && spec_offstreet_entry(net, b)->0.driving_pos.lane == d implies all.contains(
            (BuildingID(b as usize), spec_offstreet_entry(net, b)->0.driving_pos.dist_along),
        ) by {
            let e = (BuildingID(b as usize), spec_offstreet_entry(net, b)->0.driving_pos.dist_along);
            if b < n - 1 {
                let i = choose|i: int| 0 <= i < rest.len() && rest[i] == e;
                assert(all[i] == e);
            } else {
                assert(all[all.len() - 1] == e);
            }
        }
    }
}

/// The parking lots listed for a driving lane are exactly those of the inventory
/// that cars reach from it, each once, in rising order.
pub proof fn lemma_lots_on(net: &Network, d: LaneID, n: int)
    requires
        0 <= n <= net.parking_lots@.len(),
    ensures
        forall|i: int|
            #![trigger spec_lots_on(net, d, n)[i]]
            0 <= i < spec_lots_on(net, d, n).len() ==> {
                let pl = spec_lots_on(net, d, n)[i];
                &&& pl.0 < n
                &&& spec_lot_entry(net, pl.0 as int) is Some
                &&& net.parking_lots@[pl.0 as int].driving_pos.lane == d
            },
        forall|pl: int|
            0 <= pl < n && (#[trigger] spec_lot_entry(net, pl)) is Some
                && net.parking_lots@[pl].driving_pos.lane == d ==> spec_lots_on(
                net,
                d,
                n,
            ).contains(ParkingLotID(pl as usize)),
        forall|i: int, j: int|
            0 <= i < j < spec_lots_on(net, d, n).len() ==> spec_lots_on(net, d, n)[i].0
                < spec_lots_on(net, d, n)[j].0,
    decreases n,
{
    if n > 0 {
        lemma_lots_on(net, d, n - 1);
        let rest = spec_lots_on(net, d, n - 1);
        let all = spec_lots_on(net, d, n);
        assert(net.parking_lots.len() <= usize::MAX);
        assert forall|i: int| 0 <= i < all.len() implies {
            let pl = #[trigger] all[i];
            &&& pl.0 < n
            &&& spec_lot_entry(net, pl.0 as int) is Some
            &&& net.parking_lots@[pl.0 as int].driving_pos.lane == d
        } by {
            if i < rest.len() {
                assert(all[i] == rest[i]);
            }
        }
        assert forall|i: int, j: int| 0 <= i < j < all.len() implies all[i].0 < all[j].0 by {
            assert(all[i] == rest[i]);
            if j < rest.len() {
                assert(all[j] == rest[j]);
            }
        }
        assert forall|pl: int|
            0 <= pl < n && (#[trigger] spec_lot_entry(net, pl)) is Some
                && net.parking_lots@[pl].driving_pos.lane == d implies all.contains(
            ParkingLotID(pl as usize),
        ) by {
            if pl < n - 1 {
                let i = choose|i: int| 0 <= i < rest.len() && rest[i] == ParkingLotID(pl as usize);
                assert(all[i] == ParkingLotID(pl as usize));
            } else {
                assert(all[all.len() - 1] == ParkingLotID(pl as usize));
            }
        }
    }
}

/// The parking lanes of the inventory of a well-formed network: each is well
/// formed and bound to lanes of the network, and the lists by driving lane hold
/// exactly the parking lanes bound to that lane, in rising order.
pub proof fn lemma_inventory_onstreet(net: &Network)
    requires
        net.wf(),
    ensures
        forall|l: LaneID| #[trigger]
            spec_inventory(net).onstreet.contains_key(l) ==> {
                let lane = spec_inventory(net).onstreet[l];
                &&& l.0 < net.lanes@.len()
                &&& lane.wf()
                &&& lane.parking_lane == l
                &&& lane.driving_lane.0 < net.lanes@.len()
                &&& lane.sidewalk.0 < net.lanes@.len()
                &&& spec_inventory(net).parking_lanes_on(lane.driving_lane).contains(l)
            },
        forall|d: LaneID, i: int|
            0 <= i < spec_inventory(net).parking_lanes_on(d).len() ==> {
                let l = #[trigger] spec_inventory(net).parking_lanes_on(d)[i];
                &&& spec_inventory(net).onstreet.contains_key(l)
                &&& spec_inventory(net).onstreet[l].driving_lane == d
            },
        forall|d: LaneID, i: int, j: int|
            0 <= i < j < spec_inventory(net).parking_lanes_on(d).len() ==> (
            #[trigger] spec_inventory(net).parking_lanes_on(d)[i]).0 < (
            #[trigger] spec_inventory(net).parking_lanes_on(d)[j]).0,
{
    let inv = spec_inventory(net);
    let n = net.lanes@.len() as int;
    assert forall|l: LaneID| #[trigger] inv.onstreet.contains_key(l) implies {
        let lane = inv.onstreet[l];
        &&& l.0 < net.lanes@.len()
        &&& lane.wf()
        &&& lane.parking_lane == l
        &&& lane.driving_lane.0 < net.lanes@.len()
        &&& lane.sidewalk.0 < net.lanes@.len()
        &&& inv.parking_lanes_on(lane.driving_lane).contains(l)
    } by {
        lemma_parking_lane_wf(net, l.0 as int);
        lemma_parking_lanes_on(net, inv.onstreet[l].driving_lane, n);
        assert(spec_parking_lane(net, l.0 as int) is Some);
    }
    assert forall|d: LaneID, i: int| 0 <= i < inv.parking_lanes_on(d).len() implies {
        let l = #[trigger] inv.parking_lanes_on(d)[i];
        &&& inv.onstreet.contains_key(l)
        &&& inv.onstreet[l].driving_lane == d
    } by {
        lemma_parking_lanes_on(net, d, n);
        assert(inv.parking_lanes_on(d)[i] == spec_parking_lanes_on(net, d, n)[i]);
    }
    assert forall|d: LaneID, i: int, j: int|
        0 <= i < j < inv.parking_lanes_on(d).len() implies (#[trigger] inv.parking_lanes_on(
        d,
    )[i]).0 < (#[trigger] inv.parking_lanes_on(d)[j]).0 by {
        lemma_parking_lanes_on(net, d, n);
        assert(inv.parking_lanes_on(d)[i] == spec_parking_lanes_on(net, d, n)[i]);
        assert(inv.parking_lanes_on(d)[j] == spec_parking_lanes_on(net, d, n)[j]);
    }
}

/// The buildings of the inventory of a well-formed network: each can be reached
/// by car and has a spot, and the lists by driving lane hold exactly the buildings
/// reached from that lane, in rising order, each with the distance at which cars
/// leave the lane.
pub proof fn lemma_inventory_offstreet(net: &Network)
    requires
        net.wf(),
    ensures
        forall|b: BuildingID| #[trigger]
            spec_inventory(net).offstreet.contains_key(b) ==> {
                let bldg = net.buildings@[b.0 as int];
                &&& b.0 < net.buildings@.len()
                &&& bldg.driving_connection matches Some(pos)
                &&& pos.lane.0 < net.lanes@.len()
                &&& spec_inventory(net).offstreet[b] == bldg.parking.spec_num_spots()
                &&& spec_inventory(net).offstreet_on(pos.lane).contains((b, pos.dist_along))
            },
        forall|d: LaneID, i: int|
            0 <= i < spec_inventory(net).offstreet_on(d).len() ==> {
                let (b, dist) = #[trigger] spec_inventory(net).offstreet_on(d)[i];
                &&& spec_inventory(net).offstreet.contains_key(b)
                &&& net.buildings@[b.0 as int].driving_connection == Some(
                    Position { lane: d, dist_along: dist },
                )
            },
        forall|d: LaneID, i: int, j: int|
            0 <= i < j < spec_inventory(net).offstreet_on(d).len() ==> (
            #[trigger] spec_inventory(net).offstreet_on(d)[i]).0.0 < (
            #[trigger] spec_inventory(net).offstreet_on(d)[j]).0.0,
{
    let inv = spec_inventory(net);
    let n = net.buildings@.len() as int;
    assert forall|b: BuildingID| #[trigger] inv.offstreet.contains_key(b) implies {
        let bldg = net.buildings@[b.0 as int];
        &&& b.0 < net.buildings@.len()
        &&& bldg.driving_connection matches Some(pos)
        &&& pos.lane.0 < net.lanes@.len()
        &&& inv.offstreet[b] == bldg.parking.spec_num_spots()
        &&& inv.offstreet_on(pos.lane).contains((b, pos.dist_along))
    } by {
        assert(net.building_wf(b.0 as int));
        let pos = net.buildings@[b.0 as int].driving_connection->0;
        lemma_offstreet_on(net, pos.lane, n);
        assert(spec_offstreet_entry(net, b.0 as int) is Some);
    }
    assert forall|d: LaneID, i: int| 0 <= i < inv.offstreet_on(d).len() implies {
        let (b, dist) = #[trigger] inv.offstreet_on(d)[i];
        &&& inv.offstreet.contains_key(b)
        &&& net.buildings@[b.0 as int].driving_connection == Some(
            Position { lane: d, dist_along: dist },
        )
    } by {
        lemma_offstreet_on(net, d, n);
        assert(inv.offstreet_on(d)[i] == spec_offstreet_on(net, d, n)[i]);
    }
    assert forall|d: LaneID, i: int, j: int|
        0 <= i < j < inv.offstreet_on(d).len() implies (#[trigger] inv.offstreet_on(d)[i]).0.0 < (
        #[trigger] inv.offstreet_on(d)[j]).0.0 by {
        lemma_offstreet_on(net, d, n);
        assert(inv.offstreet_on(d)[i] == spec_offstreet_on(net, d, n)[i]);
        assert(inv.offstreet_on(d)[j] == spec_offstreet_on(net, d, n)[j]);
    }
}

/// The parking lots of the inventory of a well-formed network, and the lists by
/// driving lane, which hold exactly the lots reached from that lane, in rising
/// order.
pub proof fn lemma_inventory_lots(net: &Network)
    requires
        net.wf(),
    ensures
        forall|pl: ParkingLotID| #[trigger]
            spec_inventory(net).lots.contains_key(pl) ==> {
                let lot = net.parking_lots@[pl.0 as int];
                &&& pl.0 < net.parking_lots@.len()
                &&& lot.driving_pos.lane.0 < net.lanes@.len()
                &&& spec_inventory(net).lots[pl] == lot.spec_capacity()
                &&& spec_inventory(net).lots_on(lot.driving_pos.lane).contains(pl)
            },
        forall|d: LaneID, i: int|
            0 <= i < spec_inventory(net).lots_on(d).len() ==> {
                let pl = #[trigger] spec_inventory(net).lots_on(d)[i];
                &&& spec_inventory(net).lots.contains_key(pl)
                &&& net.parking_lots@[pl.0 as int].driving_pos.lane == d
            },
        forall|d: LaneID, i: int, j: int|
            0 <= i < j < spec_inventory(net).lots_on(d).len() ==> (
            #[trigger] spec_inventory(net).lots_on(d)[i]).0 < (
            #[trigger] spec_inventory(net).lots_on(d)[j]).0,
{
    let inv = spec_inventory(net);
    let n = net.parking_lots@.len() as int;
    assert forall|pl: ParkingLotID| #[trigger] inv.lots.contains_key(pl) implies {
        let lot = net.parking_lots@[pl.0 as int];
        &&& pl.0 < net.parking_lots@.len()
        &&& lot.driving_pos.lane.0 < net.lanes@.len()
        &&& inv.lots[pl] == lot.spec_capacity()
        &&& inv.lots_on(lot.driving_pos.lane).contains(pl)
    } by {
        assert(net.lot_wf(pl.0 as int));
        lemma_lots_on(net, net.parking_lots@[pl.0 as int].driving_pos.lane, n);
        assert(spec_lot_entry(net, pl.0 as int) is Some);
    }
    assert forall|d: LaneID, i: int| 0 <= i < inv.lots_on(d).len() implies {
        let pl = #[trigger] inv.lots_on(d)[i];
        &&& inv.lots.contains_key(pl)
        &&& net.parking_lots@[pl.0 as int].driving_pos.lane == d
    } by {
        lemma_lots_on(net, d, n);
        assert(inv.lots_on(d)[i] == spec_lots_on(net, d, n)[i]);
    }
    assert forall|d: LaneID, i: int, j: int|
        0 <= i < j < inv.lots_on(d).len() implies (#[trigger] inv.lots_on(d)[i]).0 < (
        #[trigger] inv.lots_on(d)[j]).0 by {
        lemma_lots_on(net, d, n);
        assert(inv.lots_on(d)[i] == spec_lots_on(net, d, n)[i]);
        assert(inv.lots_on(d)[j] == spec_lots_on(net, d, n)[j]);
    }
}

} // verus!
