//! A routable road graph built from map extracts, with time-weighted
//! path search and journey composition.

pub mod data_handling;
pub mod decimal;
pub mod osm_parsing;
pub mod path_finding;
pub mod public_transport;
pub mod route_manager;
pub mod tags;
pub mod text;
pub mod units;
pub mod utils;
