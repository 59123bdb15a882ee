use parking_sim::ids::{CarID, LaneID, PersonID};
use parking_sim::network::{Lane, LaneType, Network, PARKING_SPOT_LENGTH};
use parking_sim::snapshot::Snapshot;
use parking_sim::spot::ParkingSpot;
use parking_sim::state::ParkingSimState;
use parking_sim::vehicle::{Event, ParkedCar, Vehicle};

fn network() -> Network {
    let plain = |id: usize, lane_type: LaneType, length: u64| Lane {
        id: LaneID(id),
        lane_type,
        length,
        driving_blackhole: false,
        driving_lane: None,
        sidewalk: None,
        turns: Vec::new(),
    };
    let mut parking = plain(1, LaneType::Parking, 6 * PARKING_SPOT_LENGTH);
    parking.driving_lane = Some(LaneID(0));
    parking.sidewalk = Some(LaneID(2));
    Network {
        lanes: vec![
            plain(0, LaneType::Driving, 1_000_000),
            parking,
            plain(2, LaneType::Sidewalk, 1_000_000),
        ],
        buildings: Vec::new(),
        parking_lots: Vec::new(),
    }
}

fn parked(id: usize, idx: usize) -> ParkedCar {
    ParkedCar {
        vehicle: Vehicle { id: CarID(id), owner: Some(PersonID(id)), length: 45_000 },
        spot: ParkingSpot::Onstreet(LaneID(1), idx),
    }
}

fn busy_state(net: &Network) -> ParkingSimState {
    let mut sim = ParkingSimState::new(net);
    for p in [parked(9, 3), parked(4, 0)] {
        sim.reserve_spot(p.spot);
        sim.add_parked_car(p);
    }
    sim.reserve_spot(ParkingSpot::Onstreet(LaneID(1), 2));
    sim
}

#[test]
fn snapshot_lists_cars_and_reservations_in_order() {
    let net = network();
    let sim = busy_state(&net);
    let snap = sim.to_snapshot();
    // The lane of six spot lengths has four spots; the last has index 3.
    assert_eq!(snap.last_spots, vec![ParkingSpot::Onstreet(LaneID(1), 3)]);
    assert_eq!(snap.parked_cars, vec![parked(4, 0), parked(9, 3)]);
    assert_eq!(snap.reserved_spots, vec![ParkingSpot::Onstreet(LaneID(1), 2)]);
    assert_eq!(
        snap.events,
        vec![
            Event::CarReachedParkingSpot(CarID(9), ParkingSpot::Onstreet(LaneID(1), 3)),
            Event::CarReachedParkingSpot(CarID(4), ParkingSpot::Onstreet(LaneID(1), 0)),
        ]
    );
}

#[test]
fn snapshot_brings_back_the_same_partition_of_spots() {
    let net = network();
    let sim = busy_state(&net);
    let back = ParkingSimState::from_snapshot(&net, &sim.to_snapshot()).unwrap();
    assert_eq!(back.get_all_parking_spots(), sim.get_all_parking_spots());
    for idx in 0..5 {
        let spot = ParkingSpot::Onstreet(LaneID(1), idx);
        assert_eq!(back.is_free(spot), sim.is_free(spot));
        assert_eq!(back.ledger().is_reserved(spot), sim.ledger().is_reserved(spot));
        assert_eq!(back.get_car_at_spot(spot), sim.get_car_at_spot(spot));
    }
    let again = back.to_snapshot();
    let first = sim.to_snapshot();
    assert_eq!(again.last_spots, first.last_spots);
    assert_eq!(again.parked_cars, first.parked_cars);
    assert_eq!(again.reserved_spots, first.reserved_spots);
    assert_eq!(again.events, first.events);
}

#[test]
fn snapshots_of_no_state_are_refused() {
    let net = network();
    let good = busy_state(&net).to_snapshot();

    let mut two_in_one_spot = good.clone();
    two_in_one_spot.parked_cars = vec![parked(4, 0), parked(9, 0)];
    assert!(ParkingSimState::from_snapshot(&net, &two_in_one_spot).is_none());

    let mut out_of_order = good.clone();
    out_of_order.parked_cars = vec![parked(9, 3), parked(4, 0)];
    assert!(ParkingSimState::from_snapshot(&net, &out_of_order).is_none());

    let mut no_such_spot = good.clone();
    no_such_spot.parked_cars = vec![parked(4, 4)];
    assert!(ParkingSimState::from_snapshot(&net, &no_such_spot).is_none());

    let mut reserved_and_occupied = good.clone();
    reserved_and_occupied.reserved_spots = vec![ParkingSpot::Onstreet(LaneID(1), 0)];
    assert!(ParkingSimState::from_snapshot(&net, &reserved_and_occupied).is_none());

    let mut reserved_twice: Snapshot = good.clone();
    reserved_twice.reserved_spots =
        vec![ParkingSpot::Onstreet(LaneID(1), 2), ParkingSpot::Onstreet(LaneID(1), 2)];
    assert!(ParkingSimState::from_snapshot(&net, &reserved_twice).is_none());

    assert!(ParkingSimState::from_snapshot(&net, &good).is_some());
}

#[test]
fn a_snapshot_is_not_taken_up_on_a_network_with_other_spots() {
    let net = network();
    let good = ParkingSimState::new(&net).to_snapshot();
    let mut longer = network();
    longer.lanes[1].length += PARKING_SPOT_LENGTH;
    assert!(ParkingSimState::from_snapshot(&longer, &good).is_none());
    let mut cut_off = network();
    cut_off.lanes[0].driving_blackhole = true;
    assert!(ParkingSimState::from_snapshot(&cut_off, &good).is_none());
    assert!(ParkingSimState::new(&cut_off).to_snapshot().last_spots.is_empty());
    assert!(ParkingSimState::from_snapshot(&net, &good).is_some());
}
