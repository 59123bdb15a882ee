use parking_sim::frontier::Frontier;
use parking_sim::ids::{BuildingID, LaneID, ParkingLotID};
use parking_sim::inventory::Inventory;
use parking_sim::network::{
    Building, Lane, LaneType, Network, OffstreetParking, ParkingLot, Position, MAX_LENGTH,
    PARKING_SPOT_LENGTH,
};
use parking_sim::parking_lane::ParkingLane;
use parking_sim::spot::ParkingSpot;
use parking_sim::vehicle::Vehicle;
use parking_sim::ids::CarID;

fn plain(id: usize, lane_type: LaneType, length: u64) -> Lane {
    Lane {
        id: LaneID(id),
        lane_type,
        length,
        driving_blackhole: false,
        driving_lane: None,
        sidewalk: None,
        turns: Vec::new(),
    }
}

fn parking(id: usize, length: u64, driving: usize, sidewalk: usize) -> Lane {
    let mut l = plain(id, LaneType::Parking, length);
    l.driving_lane = Some(LaneID(driving));
    l.sidewalk = Some(LaneID(sidewalk));
    l
}

#[test]
fn frontier_hands_out_by_cost_then_by_lane() {
    let mut q = Frontier::new();
    assert!(q.is_empty());
    assert_eq!(q.pop(), None);
    for (cost, lane) in [(7, 1), (3, 9), (3, 2), (5, 0), (3, 2)] {
        q.push(cost, lane);
    }
    assert!(!q.is_empty());
    assert_eq!(q.pop(), Some((3, 2)));
    assert_eq!(q.pop(), Some((3, 2)));
    assert_eq!(q.pop(), Some((3, 9)));
    assert_eq!(q.pop(), Some((5, 0)));
    assert_eq!(q.pop(), Some((7, 1)));
    assert_eq!(q.pop(), None);
    assert!(q.is_empty());
}

#[test]
fn spots_keep_clear_of_the_ends_of_the_lane() {
    for (length, spots) in [
        (0, 0),
        (3 * PARKING_SPOT_LENGTH - 1, 0),
        (3 * PARKING_SPOT_LENGTH, 1),
        (4 * PARKING_SPOT_LENGTH - 1, 1),
        (10 * PARKING_SPOT_LENGTH, 8),
        (MAX_LENGTH, 26841),
    ] {
        assert_eq!(plain(0, LaneType::Parking, length).number_parking_spots(), spots);
    }
}

#[test]
fn spot_zero_lies_farthest_along() {
    let net = Network {
        lanes: vec![
            plain(0, LaneType::Driving, 1_000_000),
            parking(1, 5 * PARKING_SPOT_LENGTH + 70_000, 0, 2),
            plain(2, LaneType::Shoulder, 1_000_000),
        ],
        buildings: Vec::new(),
        parking_lots: Vec::new(),
    };
    let lane = ParkingLane::new(&net.lanes[1], &net).unwrap();
    assert_eq!(lane.parking_lane, LaneID(1));
    assert_eq!(lane.driving_lane, LaneID(0));
    assert_eq!(lane.sidewalk, LaneID(2));
    assert_eq!(lane.spot_dist_along, vec![320_000, 240_000, 160_000]);
    assert_eq!(
        lane.spots(),
        vec![
            ParkingSpot::Onstreet(LaneID(1), 0),
            ParkingSpot::Onstreet(LaneID(1), 1),
            ParkingSpot::Onstreet(LaneID(1), 2),
        ]
    );
    let v = |length: u64| Vehicle { id: CarID(0), owner: None, length };
    assert_eq!(lane.dist_along_for_car(1, &v(80_000)), 240_000);
    assert_eq!(lane.dist_along_for_car(1, &v(50_000)), 225_000);
    assert_eq!(lane.dist_along_for_car(1, &v(50_001)), 225_001);
    assert_eq!(lane.dist_along_for_car(1, &v(100_000)), 250_000);
    assert_eq!(lane.dist_along_for_car(1, &v(100_001)), 250_001);
    assert_eq!(lane.center_of_spot(0), 280_000);
    assert!(ParkingLane::new(&net.lanes[0], &net).is_none());
}

#[test]
fn lanes_behind_a_blackhole_or_without_a_sidewalk_offer_nothing() {
    let mut net = Network {
        lanes: vec![
            plain(0, LaneType::Driving, 1_000_000),
            parking(1, 5 * PARKING_SPOT_LENGTH, 0, 2),
            plain(2, LaneType::Sidewalk, 1_000_000),
            parking(3, 5 * PARKING_SPOT_LENGTH, 0, 2),
        ],
        buildings: vec![
            Building {
                id: BuildingID(0),
                parking: OffstreetParking::Private(4),
                driving_connection: Some(Position { lane: LaneID(0), dist_along: 100 }),
                sidewalk_pos: Position { lane: LaneID(2), dist_along: 100 },
            },
            Building {
                id: BuildingID(1),
                parking: OffstreetParking::PublicGarage(0),
                driving_connection: Some(Position { lane: LaneID(0), dist_along: 200 }),
                sidewalk_pos: Position { lane: LaneID(2), dist_along: 200 },
            },
            Building {
                id: BuildingID(2),
                parking: OffstreetParking::PublicGarage(6),
                driving_connection: None,
                sidewalk_pos: Position { lane: LaneID(2), dist_along: 300 },
            },
        ],
        parking_lots: vec![ParkingLot {
            id: ParkingLotID(0),
            driving_pos: Position { lane: LaneID(0), dist_along: 400 },
            sidewalk_pos: Position { lane: LaneID(2), dist_along: 400 },
            drawn_spots: 3,
            extra_spots: 2,
        }],
    };
    net.lanes[3].sidewalk = None;
    assert!(net.is_valid());
    let inv = Inventory::new(&net);
    assert_eq!(inv.num_onstreet_spots(LaneID(1)), 3);
    assert_eq!(inv.num_onstreet_spots(LaneID(3)), 0);
    assert!(inv.onstreet_lane(LaneID(3)).is_none());
    assert_eq!(inv.num_offstreet_spots(BuildingID(0)), 4);
    assert_eq!(inv.num_offstreet_spots(BuildingID(1)), 0);
    assert_eq!(inv.num_offstreet_spots(BuildingID(2)), 0);
    assert_eq!(inv.num_lot_spots(ParkingLotID(0)), 5);
    assert_eq!(inv.parking_lanes_on(LaneID(0)), Some(&vec![LaneID(1)]));
    assert_eq!(inv.parking_lanes_on(LaneID(2)), None);
    assert_eq!(inv.offstreet_on(LaneID(0)), Some(&vec![(BuildingID(0), 100)]));
    assert_eq!(inv.lots_on(LaneID(0)), Some(&vec![ParkingLotID(0)]));
    assert_eq!(inv.owners(0), vec![1]);
    assert_eq!(inv.owners(1), vec![0]);
    assert_eq!(inv.owners(2), vec![0]);
    assert!(inv.has_spot(ParkingSpot::Lot(ParkingLotID(0), 4)));
    assert!(!inv.has_spot(ParkingSpot::Lot(ParkingLotID(0), 5)));
    assert!(!inv.has_spot(ParkingSpot::Offstreet(BuildingID(2), 0)));

    net.lanes[0].driving_blackhole = true;
    let inv = Inventory::new(&net);
    assert_eq!(inv.num_onstreet_spots(LaneID(1)), 0);
    assert_eq!(inv.num_offstreet_spots(BuildingID(0)), 0);
    assert_eq!(inv.num_lot_spots(ParkingLotID(0)), 0);
    assert_eq!(inv.offstreet_on(LaneID(0)), None);
}

#[test]
fn positions_move_over_to_the_lane_beside() {
    let net = Network {
        lanes: vec![plain(0, LaneType::Driving, 1_000), plain(1, LaneType::Sidewalk, 600)],
        buildings: Vec::new(),
        parking_lots: Vec::new(),
    };
    let at = |dist_along: u64| Position::new(LaneID(0), dist_along);
    assert_eq!(at(400).equiv_pos(LaneID(1), &net), Position { lane: LaneID(1), dist_along: 400 });
    assert_eq!(at(600).equiv_pos(LaneID(1), &net), Position { lane: LaneID(1), dist_along: 600 });
    assert_eq!(at(900).equiv_pos(LaneID(1), &net), Position { lane: LaneID(1), dist_along: 600 });
    assert_eq!(
        at(100).equiv_pos_for_long_object(LaneID(1), 250, &net),
        Position { lane: LaneID(1), dist_along: 250 }
    );
    assert_eq!(
        at(300).equiv_pos_for_long_object(LaneID(1), 250, &net),
        Position { lane: LaneID(1), dist_along: 300 }
    );
    assert_eq!(Position::start(LaneID(4)), Position { lane: LaneID(4), dist_along: 0 });
    assert_eq!(at(7).lane(), LaneID(0));
    assert_eq!(at(7).dist_along(), 7);
}

#[test]
fn spots_are_ordered_by_kind_then_owner_then_index() {
    let spots = [
        ParkingSpot::Onstreet(LaneID(0), 5),
        ParkingSpot::Onstreet(LaneID(1), 0),
        ParkingSpot::Offstreet(BuildingID(0), 0),
        ParkingSpot::Offstreet(BuildingID(0), 1),
        ParkingSpot::Lot(ParkingLotID(0), 0),
    ];
    for (i, a) in spots.iter().enumerate() {
        for (j, b) in spots.iter().enumerate() {
            assert_eq!(a.lt(b), i < j);
            assert_eq!(a.lt(b), a < b);
        }
        assert_eq!(ParkingSpot::from_key(a.key()), *a);
    }
    assert_eq!(ParkingSpot::Lot(ParkingLotID(3), 4).key(), (2, 3, 4));
}

#[test]
fn tables_are_walked_in_rising_order_of_their_keys() {
    let mut table = std::collections::BTreeMap::new();
    for key in [9usize, 2, 40, 0] {
        table.insert(key, key * 3);
    }
    assert_eq!(parking_sim::ordered::keys_in_order(&table), vec![0, 2, 9, 40]);
    table.clear();
    assert!(parking_sim::ordered::keys_in_order(&table).is_empty());
}

#[test]
fn last_spots_tell_the_capacities() {
    let net = Network {
        lanes: vec![
            plain(0, LaneType::Driving, 1_000_000),
            parking(1, 5 * PARKING_SPOT_LENGTH, 0, 2),
            plain(2, LaneType::Sidewalk, 1_000_000),
            parking(3, 2 * PARKING_SPOT_LENGTH, 0, 2),
        ],
        buildings: vec![Building {
            id: BuildingID(0),
            parking: OffstreetParking::Private(4),
            driving_connection: Some(Position { lane: LaneID(0), dist_along: 100 }),
            sidewalk_pos: Position { lane: LaneID(2), dist_along: 100 },
        }],
        parking_lots: vec![ParkingLot {
            id: ParkingLotID(0),
            driving_pos: Position { lane: LaneID(0), dist_along: 400 },
            sidewalk_pos: Position { lane: LaneID(2), dist_along: 400 },
            drawn_spots: 0,
            extra_spots: 1,
        }],
    };
    let inv = Inventory::new(&net);
    assert_eq!(
        inv.get_last_spots(),
        vec![
            ParkingSpot::Onstreet(LaneID(1), 2),
            ParkingSpot::Offstreet(BuildingID(0), 3),
            ParkingSpot::Lot(ParkingLotID(0), 0),
        ]
    );
    assert_eq!(inv.capacity(0, 1), 3);
    assert_eq!(inv.capacity(0, 3), 0);
    assert_eq!(inv.capacity(1, 0), 4);
    assert_eq!(inv.capacity(2, 0), 1);
    assert!(parking_sim::listing::same_spots(&inv.get_last_spots(), &inv.get_last_spots()));
    assert!(!parking_sim::listing::same_spots(&inv.get_last_spots(), &Vec::new()));
}
