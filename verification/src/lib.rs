//! Parking-resource allocation for a microscopic traffic simulation.
//!
//! The crate keeps the registry of parking spots of a road network, the ledger of
//! which spots are reserved or occupied, the projection of a spot onto driving and
//! walking lanes, and the best-first search for the nearest free spot.

pub mod ids;
pub mod network;
pub mod spot;
pub mod vehicle;
pub mod parking_lane;
pub mod ordered;
pub mod inventory;
pub mod ledger;
pub mod state;
pub mod projection;
pub mod listing;
pub mod candidates;
pub mod frontier;
pub mod search;
pub mod route;
pub mod draw;
pub mod road_edit;
pub mod snapshot;
