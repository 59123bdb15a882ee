//! Identifiers of the objects of a road network and of a simulation.

use vstd::prelude::*;

verus! {

/// Distances are whole numbers of tenths of a millimetre.
pub type Distance = u64;

/// A lane. The lanes of a network are numbered from zero, in the order in which
/// the network lists them.
#[derive(Clone, Copy, Debug, PartialEq, Eq, Structural, PartialOrd, Ord, Hash)]
pub struct LaneID(pub usize);

/// A building, numbered like lanes.
#[derive(Clone, Copy, Debug, PartialEq, Eq, Structural, PartialOrd, Ord, Hash)]
pub struct BuildingID(pub usize);

/// A surface parking lot, numbered like lanes.
#[derive(Clone, Copy, Debug, PartialEq, Eq, Structural, PartialOrd, Ord, Hash)]
pub struct ParkingLotID(pub usize);

/// An intersection.
#[derive(Clone, Copy, Debug, PartialEq, Eq, Structural, PartialOrd, Ord, Hash)]
pub struct IntersectionID(pub usize);

/// A vehicle of the simulation.
#[derive(Clone, Copy, Debug, PartialEq, Eq, Structural, PartialOrd, Ord, Hash)]
pub struct CarID(pub usize);

/// A person of the simulation.
#[derive(Clone, Copy, Debug, PartialEq, Eq, Structural, PartialOrd, Ord, Hash)]
pub struct PersonID(pub usize);

/// A movement through an intersection, from the end of one lane to the start of
/// another.
#[derive(Clone, Copy, Debug, PartialEq, Eq, Structural, PartialOrd, Ord, Hash)]
pub struct TurnID {
    pub parent: IntersectionID,
    pub src: LaneID,
    pub dst: LaneID,
}

/// One step of a route: crossing an intersection, or driving a lane from its
/// start to its end.
#[derive(Clone, Copy, Debug, PartialEq, Eq, Structural, PartialOrd, Ord, Hash)]
pub enum PathStep {
    Lane(LaneID),
    Turn(TurnID),
}

} // verus!
