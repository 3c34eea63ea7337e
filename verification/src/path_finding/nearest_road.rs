//! Snapping a point to the road network: the road node nearest to it.

use crate::data_handling::{FilterSubset, OSMData};
use crate::path_finding::{
    outcome_view, PathResult, PathView, TransportMode, ROAD_DEFAULT_SPEED,
};
use crate::units::{spec_travel_time, travel_time};
use crate::utils::collections::set_members;
use crate::utils::distance_utilities::{distances_from, DistanceTable};
use std::collections::HashMap;
use vstd::prelude::*;
use vstd::std_specs::hash::*;

verus! {

broadcast use group_hash_axioms;

/// The node is in the graph and in a subset of roads.
pub open spec fn is_road_node(osm_data: &OSMData, node: u64) -> bool {
    osm_data.node_map@.contains_key(node) && exists|i: int|
        0 <= i < osm_data.node_subsets@.len() && (#[trigger] osm_data.node_subsets@[i]).filter_subset
            == FilterSubset::Roads && osm_data.node_subsets@[i].node_subset@.contains(node)
}

/// The node is a road node that was measured.
pub open spec fn is_measured_road(osm_data: &OSMData, distances: Map<u64, u64>, node: u64) -> bool {
    is_road_node(osm_data, node) && distances.contains_key(node)
}

/// A node at one distance comes before a node at another: it is nearer,
/// or equally near with an identifier that is not greater.
pub open spec fn comes_first(distance: u64, node: u64, other_distance: u64, other: u64) -> bool {
    distance < other_distance || (distance == other_distance && node <= other)
}

/// `node` is the nearest road node, at the measured distance `distance`:
/// no measured road node is nearer, and of those equally near it has the
/// least identifier.
pub open spec fn is_nearest_road(
    osm_data: &OSMData,
    distances: Map<u64, u64>,
    node: u64,
    distance: u64,
) -> bool {
    &&& is_measured_road(osm_data, distances, node)
    &&& distances[node] == distance
    &&& forall|n: u64| #[trigger]
        is_measured_road(osm_data, distances, n) ==> comes_first(distance, node, distances[n], n)
}

/// No road node was measured.
pub open spec fn no_road_measured(osm_data: &OSMData, distances: Map<u64, u64>) -> bool {
    forall|n: u64| !#[trigger] is_measured_road(osm_data, distances, n)
}

/// The nearest road node with its distance, where a road node was
/// measured.
pub open spec fn spec_closest_road(osm_data: &OSMData, distances: Map<u64, u64>) -> Option<
    (u64, u64),
> {
    if exists|n: u64| is_nearest_road(osm_data, distances, n, distances[n]) {
        let n = choose|n: u64| is_nearest_road(osm_data, distances, n, distances[n]);
        Some((n, distances[n]))
    } else {
        None
    }
}

/// A nearest node was found that comes before the node `node` at the
/// distance `distance`.
pub open spec fn within(closest: Option<(u64, u64)>, distance: u64, node: u64) -> bool {
    match closest {
        Some((nearest, least)) => comes_first(least, nearest, distance, node),
        None => false,
    }
}

/// Speed at which the stretch between a point and its road is covered.
pub open spec fn spec_snap_speed(mode: TransportMode) -> u64 {
    match mode {
        TransportMode::Walk(speed) => speed,
        TransportMode::Bike(speed) => speed,
        TransportMode::Car => ROAD_DEFAULT_SPEED,
    }
}

/// Finds the road node nearest to a point, by going through every node of
/// every subset of roads. `distances` holds the distance from the point to
/// each node that was measured. The result is `None` where no road node was
/// measured; among road nodes equally near, it is the one with the least
/// identifier.
pub fn find_closest_road_coordinate(osm_data: &OSMData, distances: &HashMap<u64, u64>) -> (r:
    Option<(u64, u64)>)
    ensures
        r == spec_closest_road(osm_data, distances@),
        match r {
            Some((node, distance)) => is_nearest_road(osm_data, distances@, node, distance),
            None => no_road_measured(osm_data, distances@),
        },
{
    let mut closest: Option<(u64, u64)> = None;
    let mut s: usize = 0;
    while s < osm_data.node_subsets.len()
        invariant
            s <= osm_data.node_subsets@.len(),
            match closest {
                Some((node, distance)) => is_measured_road(osm_data, distances@, node)
                    && distances@[node] == distance,
                None => true,
            },
            forall|i: int, n: u64|
                0 <= i < s && (#[trigger] osm_data.node_subsets@[i]).filter_subset
                    == FilterSubset::Roads && osm_data.node_subsets@[i].node_subset@.contains(n)
                    && osm_data.node_map@.contains_key(n) && #[trigger] distances@.contains_key(n)
                    ==> within(closest, distances@[n], n),
        decreases osm_data.node_subsets@.len() - s,
    {
        let subset = &osm_data.node_subsets[s];
        if let FilterSubset::Roads = subset.filter_subset {
            let members = set_members(&subset.node_subset);
            let mut m: usize = 0;
            while m < members.len()
                invariant
                    m <= members@.len(),
                    s < osm_data.node_subsets@.len(),
                    subset == &osm_data.node_subsets@[s as int],
                    subset.filter_subset == FilterSubset::Roads,
                    members@.to_set() == subset.node_subset@,
                    match closest {
                        Some((node, distance)) => is_measured_road(osm_data, distances@, node)
                            && distances@[node] == distance,
                        None => true,
                    },
                    forall|i: int, n: u64|
                        0 <= i < s && (#[trigger] osm_data.node_subsets@[i]).filter_subset
                            == FilterSubset::Roads
                            && osm_data.node_subsets@[i].node_subset@.contains(n)
                            && osm_data.node_map@.contains_key(n)
                            && #[trigger] distances@.contains_key(n) ==> within(
                            closest,
                            distances@[n],
                            n,
                        ),
                    forall|j: int|
                        0 <= j < m && osm_data.node_map@.contains_key(members@[j])
                            && #[trigger] distances@.contains_key(members@[j]) ==> within(
                            closest,
                            distances@[members@[j]],
                            members@[j],
                        ),
                decreases members@.len() - m,
            {
                let node_id = members[m];
                if osm_data.node_map.get(&node_id).is_some() {
                    if let Some(distance) = distances.get(&node_id) {
                        proof {
                            assert(members@.to_set().contains(node_id));
                        }
                        let nearer = match closest {
                            Some((closest_node_id, minimum_distance)) => *distance
                                < minimum_distance || (*distance == minimum_distance && node_id
                                < closest_node_id),
                            None => true,
                        };
                        if nearer {
                            closest = Some((node_id, *distance));
                        }
                    }
                }
                m += 1;
            }
            proof {
                assert forall|n: u64|
                    subset.node_subset@.contains(n) && osm_data.node_map@.contains_key(n)
                        && #[trigger] distances@.contains_key(n) implies within(
                    closest,
                    distances@[n],
                    n,
                ) by {
                    assert(members@.to_set().contains(n));
                    let j = choose|j: int| 0 <= j < members@.len() && members@[j] == n;
                    assert(distances@.contains_key(members@[j]));
                }
            }
        }
        s += 1;
    }
    proof {
        match closest {
            Some((node, distance)) => {
                assert forall|n: u64| #[trigger]
                    is_measured_road(osm_data, distances@, n) implies comes_first(
                    distance,
                    node,
                    distances@[n],
                    n,
                ) by {
                    let i = choose|i: int|
                        0 <= i < osm_data.node_subsets@.len() && (
                        #[trigger] osm_data.node_subsets@[i]).filter_subset == FilterSubset::Roads
                            && osm_data.node_subsets@[i].node_subset@.contains(n);
                    assert(within(closest, distances@[n], n));
                }
                assert(is_nearest_road(osm_data, distances@, node, distances@[node]));
                let chosen = choose|n: u64|
                    is_nearest_road(osm_data, distances@, n, distances@[n]);
                assert(is_measured_road(osm_data, distances@, chosen));
                assert(is_measured_road(osm_data, distances@, node));
            },
            None => {
                assert forall|n: u64| !#[trigger] is_measured_road(osm_data, distances@, n) by {
                    if is_measured_road(osm_data, distances@, n) {
                        let i = choose|i: int|
                            0 <= i < osm_data.node_subsets@.len() && (
                            #[trigger] osm_data.node_subsets@[i]).filter_subset
                                == FilterSubset::Roads
                                && osm_data.node_subsets@[i].node_subset@.contains(n);
                        assert(within(closest, distances@[n], n));
                    }
                }
                assert forall|n: u64|
                    !is_nearest_road(osm_data, distances@, n, distances@[n]) by {
                    assert(!is_measured_road(osm_data, distances@, n));
                }
            },
        }
    }
    closest
}

/// The snap of `node`: the journey from the node straight to the nearest
/// measured road node, at the speed of the traveller or, by car, at the speed
/// assumed on roads.
pub open spec fn spec_snap(
    osm_data: &OSMData,
    distances: Map<(u64, u64), u64>,
    mode: TransportMode,
    node: u64,
) -> Option<PathView> {
    match spec_closest_road(osm_data, distances_from(distances, node)) {
        Some((road, distance)) => Some(
            PathView {
                start_node: node,
                end_node: road,
                found_path: seq![node, road],
                path_length: distance,
                path_time: spec_travel_time(distance, spec_snap_speed(mode)),
            },
        ),
        None => None,
    }
}

/// Snaps the node `node_id` to the road network. The result is `None`
/// where `distances` holds no distance from the node to a road node.
pub fn find_closest_road(
    osm_data: &OSMData,
    node_id: u64,
    transport_mode: &TransportMode,
    distances: &DistanceTable,
) -> (r: Option<PathResult>)
    ensures
        outcome_view(r) == spec_snap(osm_data, distances@, *transport_mode, node_id),
        r matches Some(path) ==> is_road_node(osm_data, path.end_node),
        r is None <==> no_road_measured(osm_data, distances_from(distances@, node_id)),
{
    let row = match distances.row(node_id) {
        Some(row) => row,
        None => {
            proof {
                let none = distances_from(distances@, node_id);
                assert forall|n: u64| !is_nearest_road(osm_data, none, n, none[n]) by {}
            }
            return None;
        },
    };
    match find_closest_road_coordinate(osm_data, row) {
        None => None,
        Some((closest_node_id, minimum_distance)) => {
            let mut found_path: Vec<u64> = Vec::new();
            found_path.push(node_id);
            found_path.push(closest_node_id);
            let speed = match transport_mode {
                TransportMode::Walk(walking_speed) => *walking_speed,
                TransportMode::Bike(bike_speed) => *bike_speed,
                TransportMode::Car => ROAD_DEFAULT_SPEED,
            };
            let path_time = travel_time(minimum_distance, speed);
            proof {
                assert(found_path@ =~= seq![node_id, closest_node_id]);
                assert(is_measured_road(osm_data, row@, closest_node_id));
            }
            Some(PathResult::new(found_path, minimum_distance, path_time, node_id, closest_node_id))
        },
    }
}

} // verus!
