//! Parking-resource allocator of a street-level traffic simulation.
//!
//! The crate tracks every parking spot of a road network (curb spots along
//! parking lanes, building garages and surface lots), reserves spots for
//! approaching vehicles, commits and releases occupancy, and searches the lane
//! graph for the nearest reachable free spot.

pub mod types;
pub mod network;
pub mod parking_lane;
pub mod parking;
pub mod setup;
pub mod queries;
pub mod free_spots;
pub mod search;
pub mod models;
pub mod laws;
pub mod snapshot;
