use parking_sim::draw::{CanonicalPoint, CarBody, CarStatus, DrawCarInput};
use parking_sim::ids::{BuildingID, CarID, LaneID, ParkingLotID};
use parking_sim::network::{
    Building, Lane, LaneType, Network, OffstreetParking, ParkingLot, Position,
    PARKING_LOT_SPOT_LENGTH, PARKING_SPOT_LENGTH,
};
use parking_sim::spot::ParkingSpot;
use parking_sim::state::ParkingSimState;
use parking_sim::vehicle::{ParkedCar, Vehicle};

fn network() -> Network {
    let plain = |id: usize, lane_type: LaneType, length: u64| Lane {
        id: LaneID(id),
        lane_type,
        length,
        driving_blackhole: false,
        driving_lane: None,
        sidewalk: None,
        turns: Vec::new(),
    };
    let mut parking = plain(1, LaneType::Parking, 5 * PARKING_SPOT_LENGTH);
    parking.driving_lane = Some(LaneID(0));
    parking.sidewalk = Some(LaneID(2));
    Network {
        lanes: vec![
            plain(0, LaneType::Driving, 1_000_000),
            parking,
            plain(2, LaneType::Sidewalk, 1_000_000),
        ],
        buildings: vec![Building {
            id: BuildingID(0),
            parking: OffstreetParking::PublicGarage(1),
            driving_connection: Some(Position { lane: LaneID(0), dist_along: 700_000 }),
            sidewalk_pos: Position { lane: LaneID(2), dist_along: 700_000 },
        }],
        parking_lots: vec![ParkingLot {
            id: ParkingLotID(0),
            driving_pos: Position { lane: LaneID(0), dist_along: 500_000 },
            sidewalk_pos: Position { lane: LaneID(2), dist_along: 500_000 },
            drawn_spots: 1,
            extra_spots: 1,
        }],
    }
}

fn park(sim: &mut ParkingSimState, id: usize, length: u64, spot: ParkingSpot) {
    sim.reserve_spot(spot);
    sim.add_parked_car(ParkedCar {
        vehicle: Vehicle { id: CarID(id), owner: None, length },
        spot,
    });
}

fn full_state(net: &Network) -> ParkingSimState {
    let mut sim = ParkingSimState::new(net);
    park(&mut sim, 5, 50_000, ParkingSpot::Onstreet(LaneID(1), 2));
    park(&mut sim, 3, 40_000, ParkingSpot::Lot(ParkingLotID(0), 0));
    park(&mut sim, 2, 40_000, ParkingSpot::Lot(ParkingLotID(0), 1));
    park(&mut sim, 1, 40_000, ParkingSpot::Offstreet(BuildingID(0), 0));
    sim
}

fn on_street() -> DrawCarInput {
    // The last of three spots has its front two spot lengths in; the car of five
    // metres stands a metre and a half short of it.
    let front = 2 * PARKING_SPOT_LENGTH - 15_000;
    DrawCarInput {
        id: CarID(5),
        status: CarStatus::Parked,
        on: LaneID(1),
        body: CarBody::OnLane { lane: LaneID(1), rear: front - 50_000, front },
    }
}

fn in_lot() -> DrawCarInput {
    DrawCarInput {
        id: CarID(3),
        status: CarStatus::Parked,
        on: LaneID(0),
        body: CarBody::InLot {
            lot: ParkingLotID(0),
            slot: 0,
            from: 5_000,
            to: PARKING_LOT_SPOT_LENGTH - 5_000,
        },
    }
}

#[test]
fn cars_are_drawn_where_their_spots_have_geometry() {
    let net = network();
    assert!(net.is_valid());
    let sim = full_state(&net);
    assert_eq!(sim.get_draw_car(CarID(5), &net), Some(on_street()));
    assert_eq!(sim.get_draw_car(CarID(3), &net), Some(in_lot()));
    assert_eq!(sim.get_draw_car(CarID(2), &net), None);
    assert_eq!(sim.get_draw_car(CarID(1), &net), None);
    assert_eq!(sim.get_draw_car(CarID(8), &net), None);
    assert_eq!(sim.get_draw_cars(LaneID(1), &net), vec![on_street()]);
    assert_eq!(sim.get_draw_cars(LaneID(0), &net), vec![]);
    assert_eq!(sim.get_draw_cars_in_lots(LaneID(0), &net), vec![in_lot()]);
    assert_eq!(sim.get_draw_cars_in_lots(LaneID(1), &net), vec![]);
    assert_eq!(sim.get_all_draw_cars(&net), vec![in_lot(), on_street()]);
}

#[test]
fn every_parked_car_has_a_point_to_stand_for_it() {
    let net = network();
    let sim = full_state(&net);
    assert_eq!(sim.canonical_pt(CarID(5), &net), Some(CanonicalPoint::EndOfBody(on_street().body)));
    assert_eq!(sim.canonical_pt(CarID(3), &net), Some(CanonicalPoint::EndOfBody(in_lot().body)));
    assert_eq!(sim.canonical_pt(CarID(2), &net), Some(CanonicalPoint::LotCenter(ParkingLotID(0))));
    assert_eq!(
        sim.canonical_pt(CarID(1), &net),
        Some(CanonicalPoint::BuildingLabel(BuildingID(0)))
    );
    assert_eq!(sim.canonical_pt(CarID(8), &net), None);
}

#[test]
fn a_long_car_is_drawn_from_the_start_of_the_lane() {
    let net = network();
    let mut sim = ParkingSimState::new(&net);
    park(&mut sim, 1, 500_000, ParkingSpot::Onstreet(LaneID(1), 2));
    // The car sticks out of its spot by 21 metres at either end.
    let front = 2 * PARKING_SPOT_LENGTH + 210_000;
    assert_eq!(
        sim.get_draw_car(CarID(1), &net).unwrap().body,
        CarBody::OnLane { lane: LaneID(1), rear: 0, front }
    );
}
