//! Finding the stations near a point.

use crate::data_handling::{FilterSubset, OSMData};
use crate::text::same_text;
use crate::utils::collections::set_members;
use std::collections::HashMap;
use vstd::prelude::*;
use vstd::std_specs::hash::*;

verus! {

broadcast use group_hash_axioms;

/// The tags hold `value` under `key`.
pub open spec fn tagged_as(tags: Map<Seq<char>, Seq<char>>, key: Seq<char>, value: Seq<char>) -> bool {
    tags.contains_key(key) && tags[key] == value
}

/// The node is a railway station of the graph: it is in a subset of
/// stations, and its tags call it a station of public transport and of the
/// railway.
pub open spec fn is_station(osm_data: &OSMData, node: u64) -> bool {
    &&& osm_data.node_map@.contains_key(node)
    &&& tagged_as(osm_data.node_map@[node].tags@, "public_transport"@, "station"@)
    &&& tagged_as(osm_data.node_map@[node].tags@, "railway"@, "station"@)
    &&& exists|i: int|
        0 <= i < osm_data.node_subsets@.len() && (#[trigger] osm_data.node_subsets@[i]).filter_subset.names_landmark("stations"@) && osm_data.node_subsets@[i].node_subset@.contains(
            node,
        )
}

/// The station `node` was measured and is at most `reach` away.
pub open spec fn is_nearby_station(
    osm_data: &OSMData,
    distances: Map<u64, u64>,
    reach: u64,
    node: u64,
) -> bool {
    is_station(osm_data, node) && distances.contains_key(node) && distances[node] <= reach
}

impl FilterSubset {
    /// This is the landmark category of the given name.
    pub open spec fn names_landmark(&self, name: Seq<char>) -> bool {
        match self {
            FilterSubset::Landmark(landmark_name) => landmark_name@ == name,
            _ => false,
        }
    }

    /// Tells whether this is the landmark category of the given name.
    pub fn is_landmark(&self, name: &str) -> (r: bool)
        ensures
            r == self.names_landmark(name@),
    {
        match self {
            FilterSubset::Landmark(landmark_name) => same_text(landmark_name.as_str(), name),
            _ => false,
        }
    }
}

/// Tells whether the list holds the identifier.
fn holds(list: &Vec<u64>, id: u64) -> (r: bool)
    ensures
        r == list@.contains(id),
{
    let mut i: usize = 0;
    while i < list.len()
        invariant
            i <= list@.len(),
            forall|j: int| 0 <= j < i ==> list@[j] != id,
        decreases list@.len() - i,
    {
        if list[i] == id {
            return true;
        }
        i += 1;
    }
    false
}

/// Lists the railway stations at most `minimum_distance` away from a
/// point, each once. `distances` holds the distance from the point to each
/// node that was measured.
pub fn find_nearby_stations(
    osm_data: &OSMData,
    distances: &HashMap<u64, u64>,
    minimum_distance: u64,
) -> (r: Vec<u64>)
    ensures
        r@.no_duplicates(),
        forall|n: u64|
            r@.contains(n) <==> is_nearby_station(osm_data, distances@, minimum_distance, n),
{
    let mut valid_stations: Vec<u64> = Vec::new();
    let mut s: usize = 0;
    while s < osm_data.node_subsets.len()
        invariant
            s <= osm_data.node_subsets@.len(),
            valid_stations@.no_duplicates(),
            forall|n: u64|
                valid_stations@.contains(n) ==> is_nearby_station(
                    osm_data,
                    distances@,
                    minimum_distance,
                    n,
                ),
            forall|i: int, n: u64|
                0 <= i < s && (#[trigger] osm_data.node_subsets@[i]).filter_subset.names_landmark("stations"@)
                    && osm_data.node_subsets@[i].node_subset@.contains(n) && is_nearby_station(
                    osm_data,
                    distances@,
                    minimum_distance,
                    n,
                ) ==> #[trigger] valid_stations@.contains(n),
        decreases osm_data.node_subsets@.len() - s,
    {
        let node_subset = &osm_data.node_subsets[s];
        if node_subset.filter_subset.is_landmark("stations") {
            let members = set_members(&node_subset.node_subset);
            let mut m: usize = 0;
            while m < members.len()
                invariant
                    m <= members@.len(),
                    valid_stations@.no_duplicates(),
                    s < osm_data.node_subsets@.len(),
                    node_subset == &osm_data.node_subsets@[s as int],
                    node_subset.filter_subset.names_landmark("stations"@),
                    members@.to_set() == node_subset.node_subset@,
                    forall|n: u64|
                        valid_stations@.contains(n) ==> is_nearby_station(
                            osm_data,
                            distances@,
                            minimum_distance,
                            n,
                        ),
                    forall|i: int, n: u64|
                        0 <= i < s && (#[trigger] osm_data.node_subsets@[i]).filter_subset.names_landmark("stations"@)
                            && osm_data.node_subsets@[i].node_subset@.contains(n)
                            && is_nearby_station(osm_data, distances@, minimum_distance, n)
                            ==> #[trigger] valid_stations@.contains(n),
                    forall|j: int|
                        0 <= j < m && is_nearby_station(
                            osm_data,
                            distances@,
                            minimum_distance,
                            #[trigger] members@[j],
                        ) ==> valid_stations@.contains(members@[j]),
                decreases members@.len() - m,
            {
                let node_id = members[m];
                let ghost before = valid_stations@;
                proof {
                    assert(members@.to_set().contains(node_id));
                }
                if let Some(node) = osm_data.node_map.get(&node_id) {
                    let public = match node.tags.get("public_transport") {
                        Some(value) => same_text(value.as_str(), "station"),
                        None => false,
                    };
                    let railway = match node.tags.get("railway") {
                        Some(value) => same_text(value.as_str(), "station"),
                        None => false,
                    };
                    if public && railway {
                        if let Some(distance_to_station) = distances.get(&node_id) {
                            if *distance_to_station <= minimum_distance && !holds(
                                &valid_stations,
                                node_id,
                            ) {
                                valid_stations.push(node_id);
                                proof {
                                    assert(valid_stations@[before.len() as int] == node_id);
                                }
                            }
                        }
                    }
                }
                proof {
                    assert forall|n: u64| before.contains(n) implies valid_stations@.contains(n) by {
                        let i = choose|i: int| 0 <= i < before.len() && before[i] == n;
                        assert(valid_stations@[i] == n);
                    }
                    assert forall|i: int, n: u64|
                        0 <= i < s && (#[trigger] osm_data.node_subsets@[i]).filter_subset.names_landmark(
                            "stations"@,
                        ) && osm_data.node_subsets@[i].node_subset@.contains(n) && is_nearby_station(
                            osm_data,
                            distances@,
                            minimum_distance,
                            n,
                        ) implies #[trigger] valid_stations@.contains(n) by {
                        assert(before.contains(n));
                    }
                    assert forall|j: int|
                        0 <= j < m && is_nearby_station(
                            osm_data,
                            distances@,
                            minimum_distance,
                            #[trigger] members@[j],
                        ) implies valid_stations@.contains(members@[j]) by {
                        assert(before.contains(members@[j]));
                    }
                    assert forall|n: u64| valid_stations@.contains(n) implies is_nearby_station(
                        osm_data,
                        distances@,
                        minimum_distance,
                        n,
                    ) by {
                        let i = choose|i: int| 0 <= i < valid_stations@.len() && valid_stations@[i] == n;
                        if i < before.len() {
                            assert(before[i] == n);
                            assert(before.contains(n));
                        }
                    }
                }
                m += 1;
            }
            proof {
                assert forall|n: u64|
                    node_subset.node_subset@.contains(n) && is_nearby_station(
                        osm_data,
                        distances@,
                        minimum_distance,
                        n,
                    ) implies valid_stations@.contains(n) by {
                    assert(members@.to_set().contains(n));
                    let j = choose|j: int| 0 <= j < members@.len() && members@[j] == n;
                    assert(members@[j] == n);
                }
            }
        }
        s += 1;
    }
    valid_stations
}

} // verus!
