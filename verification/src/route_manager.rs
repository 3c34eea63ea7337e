//! Journeys made of several legs, and the choice among them.

use crate::path_finding::PathResult;
use crate::public_transport::PublicTransportResult;
use vstd::prelude::*;

pub mod route_manager;
pub mod transport_options;

verus! {

/// One leg of a journey: a stretch of road, or a ride between stations.
#[derive(Clone, Debug)]
pub enum RouteComponent {
    Path(PathResult),
    PublicTransport(PublicTransportResult),
}

/// A journey: its legs in the order in which they are travelled.
#[derive(Clone, Debug)]
pub struct Route {
    pub components: Vec<RouteComponent>,
}

/// Why there is no direct journey over the road.
#[derive(Clone, Copy, Debug, PartialEq, Eq, Structural)]
pub enum RouteError {
    /// No road was measured near one of the two ends.
    NoRoad,
    /// The two ends lie at the same road node, or no road leads from the one
    /// to the other.
    NoPath,
}

} // verus!
