//! Time-weighted path search over the road graph.

use vstd::prelude::*;

pub mod ancestry_laws;
pub mod nearest_road;
pub mod path_finding;
pub mod path_laws;
pub mod queue_handling;
pub mod search_laws;

verus! {

/// One entry of the search frontier. Costs and times are durations in
/// billionths of a second, so that entries are ordered by integers alone.
#[derive(Clone, Copy, Debug, PartialEq, Eq, Structural)]
pub struct QueueItem {
    /// Estimated duration of a journey through this node.
    pub cost: u64,
    /// Position in the sequence of insertions.
    pub order_added: usize,
    /// Duration of the journey from the start to this node.
    pub time_to_start: u64,
    pub node_id: u64,
}

/// The outcome of a search: the nodes passed, from the end of the journey
/// back to its start, with the length and the duration of the journey.
#[derive(Debug, Clone)]
pub struct PathResult {
    pub start_node: u64,
    pub end_node: u64,
    pub found_path: Vec<u64>,
    /// Length in billionths of a metre.
    pub path_length: u64,
    /// Duration in billionths of a second.
    pub path_time: u64,
}

/// What a `PathResult` holds.
pub struct PathView {
    pub start_node: u64,
    pub end_node: u64,
    pub found_path: Seq<u64>,
    pub path_length: u64,
    pub path_time: u64,
}

impl View for PathResult {
    type V = PathView;

    open spec fn view(&self) -> PathView {
        PathView {
            start_node: self.start_node,
            end_node: self.end_node,
            found_path: self.found_path@,
            path_length: self.path_length,
            path_time: self.path_time,
        }
    }
}

/// What a search gave, as a value of specifications.
pub open spec fn outcome_view(r: Option<PathResult>) -> Option<PathView> {
    match r {
        Some(p) => Some(p@),
        None => None,
    }
}

/// How a journey is made. Speeds are in billionths of a metre per second.
#[derive(Debug, Clone, Copy, PartialEq, Eq, Structural)]
pub enum TransportMode {
    Car,
    Bike(u64),
    Walk(u64),
}

/// Speed assumed on a road that states no limit of its own: 60 km/h.
pub const ROAD_DEFAULT_SPEED: u64 = 16_666_666_666;

/// Highest speed any road allows: 120 km/h.
pub const ROAD_MAXIMUM_SPEED: u64 = 33_333_333_333;

} // verus!
