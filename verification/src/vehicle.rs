//! Vehicles, parked cars, and the events that parking gives rise to.

use crate::ids::{CarID, Distance, PersonID};
use crate::spot::ParkingSpot;
use vstd::prelude::*;

verus! {

/// A vehicle: who owns it, and how long it is.
#[derive(Clone, Copy, Debug, PartialEq, Eq, Structural)]
pub struct Vehicle {
    pub id: CarID,
    pub owner: Option<PersonID>,
    pub length: Distance,
}

/// A vehicle standing in a spot.
#[derive(Clone, Copy, Debug, PartialEq, Eq, Structural)]
pub struct ParkedCar {
    pub vehicle: Vehicle,
    pub spot: ParkingSpot,
}

/// What the rest of the simulation is told about parking.
#[derive(Clone, Copy, Debug, PartialEq, Eq, Structural)]
pub enum Event {
    CarReachedParkingSpot(CarID, ParkingSpot),
    CarLeftParkingSpot(CarID, ParkingSpot),
}

} // verus!
