use parking_sim::ids::{BuildingID, CarID, LaneID, ParkingLotID, PersonID, IntersectionID, TurnID};
use parking_sim::network::{
    Building, Lane, LaneType, Network, OffstreetParking, ParkingLot, Position, Turn,
    PARKING_SPOT_LENGTH,
};
use parking_sim::spot::ParkingSpot;
use parking_sim::state::ParkingSimState;
use parking_sim::vehicle::{Event, ParkedCar, Vehicle};

fn lane(id: usize, lane_type: LaneType, length: u64) -> Lane {
    Lane {
        id: LaneID(id),
        lane_type,
        length,
        driving_blackhole: false,
        driving_lane: None,
        sidewalk: None,
        turns: Vec::new(),
    }
}

fn parking(id: usize, length: u64, driving: usize, sidewalk: usize) -> Lane {
    let mut l = lane(id, LaneType::Parking, length);
    l.driving_lane = Some(LaneID(driving));
    l.sidewalk = Some(LaneID(sidewalk));
    l
}

fn turn(src: usize, dst: usize, length: u64) -> Turn {
    Turn { id: TurnID { parent: IntersectionID(0), src: LaneID(src), dst: LaneID(dst) }, length }
}

fn car(id: usize, length: u64) -> Vehicle {
    Vehicle { id: CarID(id), owner: Some(PersonID(id + 100)), length }
}

/// One road: driving lane 0, parking lane 1 with three spots, sidewalk 2.
fn one_road() -> Network {
    Network {
        lanes: vec![
            lane(0, LaneType::Driving, 1_000_000),
            parking(1, 5 * PARKING_SPOT_LENGTH, 0, 2),
            lane(2, LaneType::Sidewalk, 1_000_000),
        ],
        buildings: Vec::new(),
        parking_lots: Vec::new(),
    }
}

fn park(sim: &mut ParkingSimState, vehicle: Vehicle, spot: ParkingSpot) -> ParkedCar {
    assert!(sim.is_free(spot));
    assert!(sim.has_spot(spot));
    sim.reserve_spot(spot);
    let p = ParkedCar { vehicle, spot };
    sim.add_parked_car(p);
    p
}

#[test]
fn three_free_spots_then_two_after_reserving_the_middle() {
    let net = one_road();
    assert!(net.is_valid());
    let mut sim = ParkingSimState::new(&net);
    assert_eq!(
        sim.get_free_onstreet_spots(LaneID(1)),
        vec![
            ParkingSpot::Onstreet(LaneID(1), 0),
            ParkingSpot::Onstreet(LaneID(1), 1),
            ParkingSpot::Onstreet(LaneID(1), 2),
        ]
    );
    sim.reserve_spot(ParkingSpot::Onstreet(LaneID(1), 1));
    assert_eq!(
        sim.get_free_onstreet_spots(LaneID(1)),
        vec![ParkingSpot::Onstreet(LaneID(1), 0), ParkingSpot::Onstreet(LaneID(1), 2)]
    );
    assert!(!sim.is_free(ParkingSpot::Onstreet(LaneID(1), 1)));
}

#[test]
fn no_spots_on_a_lane_that_is_no_parking_lane() {
    let net = one_road();
    let sim = ParkingSimState::new(&net);
    assert!(sim.get_free_onstreet_spots(LaneID(0)).is_empty());
    assert!(sim.get_free_onstreet_spots(LaneID(7)).is_empty());
    assert!(sim.get_free_offstreet_spots(BuildingID(0)).is_empty());
    assert!(sim.get_free_lot_spots(ParkingLotID(0)).is_empty());
}

#[test]
fn vehicle_is_centred_and_its_rear_lies_its_length_behind_its_front() {
    let net = one_road();
    let sim = ParkingSimState::new(&net);
    let spot = ParkingSpot::Onstreet(LaneID(1), 0);
    // Spot 0 of three lies farthest along: its front is four spot lengths in.
    let spot_front = 4 * PARKING_SPOT_LENGTH;
    for length in [30_000u64, 50_000, 80_000] {
        let v = car(1, length);
        let front = spot_front - (PARKING_SPOT_LENGTH - length) / 2;
        let pos = sim.spot_to_driving_pos(spot, &v, &net);
        assert_eq!(pos, Position { lane: LaneID(0), dist_along: front });
        assert_eq!(pos.dist_along - length, front - length);
        let walk = sim.spot_to_sidewalk_pos(spot, &net);
        assert_eq!(
            walk,
            Position { lane: LaneID(2), dist_along: spot_front - PARKING_SPOT_LENGTH / 2 }
        );
    }
}

#[test]
fn ledger_follows_reserve_arrive_leave() {
    let net = one_road();
    let mut sim = ParkingSimState::new(&net);
    let spot = ParkingSpot::Onstreet(LaneID(1), 2);
    assert!(sim.is_free(spot));
    let p = park(&mut sim, car(7, 40_000), spot);
    assert!(!sim.is_free(spot));
    assert_eq!(sim.get_car_at_spot(spot), Some(&p));
    assert_eq!(sim.lookup_parked_car(CarID(7)), Some(&p));
    assert_eq!(sim.get_owner_of_car(CarID(7)), Some(PersonID(107)));
    assert_eq!(sim.get_owner_of_car(CarID(8)), None);
    sim.remove_parked_car(p);
    assert!(sim.is_free(spot));
    assert_eq!(sim.get_car_at_spot(spot), None);
    assert_eq!(
        sim.collect_events(),
        vec![
            Event::CarReachedParkingSpot(CarID(7), spot),
            Event::CarLeftParkingSpot(CarID(7), spot),
        ]
    );
    assert!(sim.collect_events().is_empty());
}

#[test]
fn all_spots_are_parted_into_taken_and_free() {
    let net = one_road();
    let mut sim = ParkingSimState::new(&net);
    park(&mut sim, car(1, 40_000), ParkingSpot::Onstreet(LaneID(1), 0));
    sim.reserve_spot(ParkingSpot::Onstreet(LaneID(1), 2));
    let (filled, available) = sim.get_all_parking_spots();
    assert_eq!(
        filled,
        vec![ParkingSpot::Onstreet(LaneID(1), 0), ParkingSpot::Onstreet(LaneID(1), 2)]
    );
    assert_eq!(available, vec![ParkingSpot::Onstreet(LaneID(1), 1)]);
    sim.cancel_reservation(ParkingSpot::Onstreet(LaneID(1), 2));
    assert!(sim.is_free(ParkingSpot::Onstreet(LaneID(1), 2)));
}

/// Driving lanes 0, 3, 5; parking lane 1 along 0 and 4 along 3; sidewalk 2.
/// Building 0 (private, two spots) and building 1 (public, three spots) on lane
/// 5; parking lot 0 (two drawn slots and one more) on lane 3.
fn town(turn_to_3: u64, turn_to_5: u64) -> Network {
    let mut start = lane(0, LaneType::Driving, 1_000_000);
    start.turns = vec![turn(0, 3, turn_to_3), turn(0, 5, turn_to_5)];
    Network {
        lanes: vec![
            start,
            parking(1, 5 * PARKING_SPOT_LENGTH, 0, 2),
            lane(2, LaneType::Sidewalk, 1_000_000),
            lane(3, LaneType::Driving, 500_000),
            parking(4, 4 * PARKING_SPOT_LENGTH, 3, 2),
            lane(5, LaneType::Driving, 500_000),
        ],
        buildings: vec![
            Building {
                id: BuildingID(0),
                parking: OffstreetParking::Private(2),
                driving_connection: Some(Position { lane: LaneID(5), dist_along: 200_000 }),
                sidewalk_pos: Position { lane: LaneID(2), dist_along: 10_000 },
            },
            Building {
                id: BuildingID(1),
                parking: OffstreetParking::PublicGarage(3),
                driving_connection: Some(Position { lane: LaneID(5), dist_along: 300_000 }),
                sidewalk_pos: Position { lane: LaneID(2), dist_along: 20_000 },
            },
        ],
        parking_lots: vec![ParkingLot {
            id: ParkingLotID(0),
            driving_pos: Position { lane: LaneID(3), dist_along: 100_000 },
            sidewalk_pos: Position { lane: LaneID(2), dist_along: 30_000 },
            drawn_spots: 2,
            extra_spots: 1,
        }],
    }
}

#[test]
fn search_takes_the_nearer_lane_and_skips_the_start() {
    let net = town(50_000, 30_000);
    assert!(net.is_valid());
    let sim = ParkingSimState::new(&net);
    let v = car(1, 40_000);
    // Lane 5 costs 1_030_000, lane 3 costs 1_050_000. The spots along the
    // start lane are not looked at.
    let (path, spot, pos) =
        sim.path_to_free_parking_spot(LaneID(0), &v, BuildingID(9), &net).unwrap();
    assert_eq!(spot, ParkingSpot::Offstreet(BuildingID(1), 0));
    assert_eq!(pos, Position { lane: LaneID(5), dist_along: 300_000 });
    assert_eq!(
        path,
        vec![
            parking_sim::ids::PathStep::Turn(turn(0, 5, 30_000).id),
            parking_sim::ids::PathStep::Lane(LaneID(5)),
        ]
    );
}

#[test]
fn search_offers_private_spots_to_trips_that_end_there() {
    let net = town(50_000, 30_000);
    let sim = ParkingSimState::new(&net);
    let v = car(1, 40_000);
    let (_, spot, pos) =
        sim.path_to_free_parking_spot(LaneID(0), &v, BuildingID(0), &net).unwrap();
    assert_eq!(spot, ParkingSpot::Offstreet(BuildingID(0), 0));
    assert_eq!(pos, Position { lane: LaneID(5), dist_along: 200_000 });
}

#[test]
fn search_breaks_ties_by_the_lower_lane() {
    let net = town(30_000, 30_000);
    let sim = ParkingSimState::new(&net);
    let v = car(1, 40_000);
    let (path, spot, pos) =
        sim.path_to_free_parking_spot(LaneID(0), &v, BuildingID(9), &net).unwrap();
    // Lanes 3 and 5 cost the same; lane 3 is looked at first. Of its spots the
    // one that is left for nearest the lane's start is the last on the street.
    assert_eq!(path[1], parking_sim::ids::PathStep::Lane(LaneID(3)));
    assert_eq!(spot, ParkingSpot::Lot(ParkingLotID(0), 0));
    assert_eq!(pos, Position { lane: LaneID(3), dist_along: 100_000 });
    let again = sim.path_to_free_parking_spot(LaneID(0), &v, BuildingID(9), &net).unwrap();
    assert_eq!(again, (path, spot, pos));
}

#[test]
fn search_finds_nothing_where_nothing_can_be_reached() {
    let net = one_road();
    let sim = ParkingSimState::new(&net);
    let v = car(1, 40_000);
    assert_eq!(sim.path_to_free_parking_spot(LaneID(0), &v, BuildingID(0), &net), None);
}

#[test]
fn candidates_lie_ahead_of_the_vehicle() {
    let net = town(50_000, 30_000);
    let sim = ParkingSimState::new(&net);
    let v = car(1, 40_000);
    let all = sim.get_all_free_spots(Position::start(LaneID(5)), &v, BuildingID(0), &net);
    assert_eq!(all.len(), 5);
    let later = sim.get_all_free_spots(
        Position { lane: LaneID(5), dist_along: 200_000 },
        &v,
        BuildingID(0),
        &net,
    );
    assert_eq!(
        later,
        vec![
            (ParkingSpot::Offstreet(BuildingID(1), 0), Position { lane: LaneID(5), dist_along: 300_000 }),
            (ParkingSpot::Offstreet(BuildingID(1), 1), Position { lane: LaneID(5), dist_along: 300_000 }),
            (ParkingSpot::Offstreet(BuildingID(1), 2), Position { lane: LaneID(5), dist_along: 300_000 }),
        ]
    );
    let past = sim.get_all_free_spots(
        Position { lane: LaneID(5), dist_along: 300_000 },
        &v,
        BuildingID(0),
        &net,
    );
    assert!(past.is_empty());
}

#[test]
fn cars_in_vanished_spots_are_evicted() {
    let net = town(50_000, 30_000);
    let mut sim = ParkingSimState::new(&net);
    let stays = park(&mut sim, car(1, 40_000), ParkingSpot::Onstreet(LaneID(1), 0));
    let goes = park(&mut sim, car(2, 40_000), ParkingSpot::Onstreet(LaneID(4), 1));
    let in_lot = park(&mut sim, car(3, 40_000), ParkingSpot::Lot(ParkingLotID(0), 2));
    sim.reserve_spot(ParkingSpot::Onstreet(LaneID(4), 0));
    sim.reserve_spot(ParkingSpot::Onstreet(LaneID(1), 2));
    // The edit turns lane 3 into a blackhole: its parking lane and its lot go.
    let mut edited = town(50_000, 30_000);
    edited.lanes[3].driving_blackhole = true;
    let evicted = sim.handle_live_edits(&edited);
    assert_eq!(evicted, vec![goes, in_lot]);
    assert_eq!(sim.lookup_parked_car(CarID(1)), Some(&stays));
    assert_eq!(sim.lookup_parked_car(CarID(2)), None);
    assert!(!sim.has_spot(ParkingSpot::Onstreet(LaneID(4), 0)));
    assert!(sim.is_free(ParkingSpot::Onstreet(LaneID(4), 0)));
    assert!(sim.is_free(ParkingSpot::Onstreet(LaneID(4), 1)));
    assert!(!sim.is_free(ParkingSpot::Onstreet(LaneID(1), 2)));
    assert!(!sim.is_free(ParkingSpot::Onstreet(LaneID(1), 0)));
}

#[test]
fn malformed_networks_are_told_apart() {
    let mut net = one_road();
    net.lanes[1].driving_lane = None;
    assert!(!net.is_valid());
    let mut net = one_road();
    net.lanes[2].id = LaneID(5);
    assert!(!net.is_valid());
    let mut net = one_road();
    net.lanes[0].turns.push(turn(0, 9, 10));
    assert!(!net.is_valid());
}

#[test]
fn search_adds_up_lanes_and_turns() {
    // From lane 0 (100) a turn of 5 leads to lane 1 (10) and a turn of 50 to
    // lane 2; from lane 1 a turn of 1 leads to lane 3. Lanes 2 and 3 have a lot
    // each. Lane 3 costs 100 + 5 + 10 + 1, lane 2 costs 100 + 50.
    let mut l0 = lane(0, LaneType::Driving, 100);
    l0.turns = vec![turn(0, 2, 50), turn(0, 1, 5)];
    let mut l1 = lane(1, LaneType::Driving, 10);
    l1.turns = vec![turn(1, 3, 1), turn(1, 0, 1)];
    let lot = |id: usize, on: usize| ParkingLot {
        id: ParkingLotID(id),
        driving_pos: Position { lane: LaneID(on), dist_along: 7 },
        sidewalk_pos: Position { lane: LaneID(on), dist_along: 7 },
        drawn_spots: 0,
        extra_spots: 2,
    };
    let net = Network {
        lanes: vec![l0, l1, lane(2, LaneType::Driving, 10), lane(3, LaneType::Driving, 10)],
        buildings: Vec::new(),
        parking_lots: vec![lot(0, 2), lot(1, 3)],
    };
    assert!(net.is_valid());
    let mut sim = ParkingSimState::new(&net);
    let v = car(1, 40_000);
    let found = sim.path_to_free_parking_spot(LaneID(0), &v, BuildingID(0), &net).unwrap();
    assert_eq!(
        found,
        (
            vec![
                parking_sim::ids::PathStep::Turn(turn(0, 1, 5).id),
                parking_sim::ids::PathStep::Lane(LaneID(1)),
                parking_sim::ids::PathStep::Turn(turn(1, 3, 1).id),
                parking_sim::ids::PathStep::Lane(LaneID(3)),
            ],
            ParkingSpot::Lot(ParkingLotID(1), 0),
            Position { lane: LaneID(3), dist_along: 7 },
        )
    );
    // With the lot on lane 3 full, the search goes on to lane 2.
    park(&mut sim, car(2, 40_000), ParkingSpot::Lot(ParkingLotID(1), 0));
    sim.reserve_spot(ParkingSpot::Lot(ParkingLotID(1), 1));
    let (path, spot, _) =
        sim.path_to_free_parking_spot(LaneID(0), &v, BuildingID(0), &net).unwrap();
    assert_eq!(path.len(), 2);
    assert_eq!(spot, ParkingSpot::Lot(ParkingLotID(0), 0));
    // Nothing is found from lane 2, which leads nowhere.
    assert_eq!(sim.path_to_free_parking_spot(LaneID(2), &v, BuildingID(0), &net), None);
}

#[test]
fn an_occupied_spot_admits_no_second_car() {
    let net = one_road();
    let mut sim = ParkingSimState::new(&net);
    let spot = ParkingSpot::Onstreet(LaneID(1), 1);
    sim.reserve_spot(spot);
    assert!(sim.ledger().is_reserved(spot));
    assert!(sim.get_car_at_spot(spot).is_none());
    let p = ParkedCar { vehicle: car(3, 40_000), spot };
    sim.add_parked_car(p);
    // What an arrival asks for no longer holds: the spot is not reserved, and
    // it is not free to be reserved again.
    assert!(!sim.ledger().is_reserved(spot));
    assert!(!sim.is_free(spot));
    assert_eq!(sim.get_car_at_spot(spot), Some(&p));
    assert!(sim.is_free(ParkingSpot::Onstreet(LaneID(1), 0)));
    sim.remove_parked_car(p);
    assert!(sim.is_free(spot));
}
