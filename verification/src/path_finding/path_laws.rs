//! What holds of every journey that a search gives.

use crate::data_handling::OSMData;
use crate::path_finding::ancestry_laws::{
    way_back_fits_the_pointers, way_back_follows_parents, way_back_has_no_circle,
};
use crate::path_finding::path_finding::{
    ancestry, context, route_measure, spec_edge_speed, spec_path_finding,
};
use crate::path_finding::search_laws::search_finds_what_is_connected;
use crate::path_finding::{PathView, TransportMode};
use vstd::prelude::*;
use vstd::std_specs::hash::*;

verus! {

broadcast use group_hash_axioms;

/// A path whose steps were all measured has a length and a duration.
proof fn measured_way_has_measure(
    osm_data: &OSMData,
    mode: TransportMode,
    distances: Map<(u64, u64), u64>,
    path: Seq<u64>,
    legs: int,
)
    requires
        legs < path.len(),
        forall|k: int| 1 <= k <= legs ==> distances.contains_key((#[trigger] path[k], path[k - 1])),
    ensures
        route_measure(osm_data, mode, distances, path, legs) is Some,
    decreases legs,
{
    if legs > 0 {
        measured_way_has_measure(osm_data, mode, distances, path, legs - 1);
        assert(distances.contains_key((path[legs], path[legs - 1])));
    }
}

/// The context of a search between two different nodes, from a node of
/// the graph, is valid.
proof fn context_is_valid(
    osm_data: &OSMData,
    start: u64,
    target: u64,
    mode: TransportMode,
    distances: Map<(u64, u64), u64>,
)
    requires
        osm_data.node_map@.contains_key(start),
        start != target,
    ensures
        context(osm_data, start, target, mode, distances).valid(),
{
    let ctx = context(osm_data, start, target, mode, distances);
    assert(ctx.neighbours.dom() =~= osm_data.node_map@.dom());
}

/// What a search hands out where it has found the target: the way back
/// from the target to the start, which has a measure.
proof fn found_target_has_a_journey(
    osm_data: &OSMData,
    start: u64,
    target: u64,
    mode: TransportMode,
    distances: Map<(u64, u64), u64>,
)
    requires
        osm_data.node_map@.contains_key(start),
        start != target,
        context(osm_data, start, target, mode, distances).outcome().found,
    ensures
        spec_path_finding(osm_data, start, target, mode, distances) is Some,
        ({
            let ctx = context(osm_data, start, target, mode, distances);
            let path = spec_path_finding(osm_data, start, target, mode, distances)->0.found_path;
            &&& ancestry(
                ctx.outcome().parents,
                start,
                target,
                ctx.outcome().parents.dom().len(),
            ) == Some(path)
            &&& path.len() >= 2
            &&& path.no_duplicates()
            &&& forall|i: int| 0 <= i < path.len() - 1 ==> ctx.road(path[i + 1], #[trigger] path[i])
        }),
{
    let ctx = context(osm_data, start, target, mode, distances);
    context_is_valid(osm_data, start, target, mode, distances);
    search_finds_what_is_connected(ctx);
    let s = ctx.outcome();
    assert(s.parents.contains_key(target));
    assert(s.parents.contains_key(start));
    let n = choose|n: nat| ancestry(s.parents, start, target, n) is Some;
    way_back_fits_the_pointers(s.parents, start, target, n);
    let fuel = s.parents.dom().len();
    let path = ancestry(s.parents, start, target, fuel)->0;
    way_back_follows_parents(s.parents, start, target, fuel);
    way_back_has_no_circle(s.parents, start, target, fuel);
    assert forall|i: int| 0 <= i < path.len() - 1 implies ctx.road(path[i + 1], #[trigger] path[i]) by {
        assert(s.parents.contains_key(path[i]) && path[i] != start);
    }
    assert forall|k: int| 1 <= k <= path.len() - 1 implies distances.contains_key(
        (#[trigger] path[k], path[k - 1]),
    ) by {
        assert(ctx.road(path[k - 1 + 1], path[k - 1]));
    }
    measured_way_has_measure(osm_data, mode, distances, path, path.len() - 1);
}

/// A search gives a journey only where a path leads from the start to the
/// target over roads that can be taken, and wherever one does, unless it has
/// run out of insertion numbers. Where the two are not connected it gives
/// none.
pub proof fn journey_exists_where_connected(
    osm_data: &OSMData,
    start: u64,
    target: u64,
    mode: TransportMode,
    distances: Map<(u64, u64), u64>,
)
    requires
        osm_data.node_map@.contains_key(start),
        start != target,
    ensures
        spec_path_finding(osm_data, start, target, mode, distances) is Some ==> context(
            osm_data,
            start,
            target,
            mode,
            distances,
        ).connected(),
        context(osm_data, start, target, mode, distances).connected() && context(
            osm_data,
            start,
            target,
            mode,
            distances,
        ).outcome().inserted < usize::MAX ==> spec_path_finding(
            osm_data,
            start,
            target,
            mode,
            distances,
        ) is Some,
{
    let ctx = context(osm_data, start, target, mode, distances);
    context_is_valid(osm_data, start, target, mode, distances);
    search_finds_what_is_connected(ctx);
    if ctx.outcome().found {
        found_target_has_a_journey(osm_data, start, target, mode, distances);
    }
}

/// The journey that a search gives runs from the target back to the start
/// over roads of the graph that can be taken, and passes no node twice. Its
/// length and its duration are those of its steps, added up.
pub proof fn journey_follows_roads(
    osm_data: &OSMData,
    start: u64,
    target: u64,
    mode: TransportMode,
    distances: Map<(u64, u64), u64>,
    journey: PathView,
)
    requires
        osm_data.node_map@.contains_key(start),
        start != target,
        spec_path_finding(osm_data, start, target, mode, distances) == Some(journey),
    ensures
        journey.start_node == start,
        journey.end_node == target,
        journey.found_path.len() >= 2,
        journey.found_path[0] == target,
        journey.found_path.last() == start,
        journey.found_path.no_duplicates(),
        forall|i: int|
            0 <= i < journey.found_path.len() - 1 ==> context(
                osm_data,
                start,
                target,
                mode,
                distances,
            ).road(journey.found_path[i + 1], #[trigger] journey.found_path[i]),
        route_measure(
            osm_data,
            mode,
            distances,
            journey.found_path,
            journey.found_path.len() - 1,
        ) == Some((journey.path_length, journey.path_time)),
{
    let ctx = context(osm_data, start, target, mode, distances);
    found_target_has_a_journey(osm_data, start, target, mode, distances);
    way_back_follows_parents(
        ctx.outcome().parents,
        start,
        target,
        ctx.outcome().parents.dom().len(),
    );
}

/// The straight distance to `target` is never more than the way round
/// over another node.
pub open spec fn obeys_triangle(distances: Map<(u64, u64), u64>, target: u64) -> bool {
    forall|a: u64, b: u64|
        #![trigger distances.contains_key((a, b)), distances.contains_key((b, target))]
        distances.contains_key((a, b)) && distances.contains_key((b, target))
            && distances.contains_key((a, target)) ==> distances[(a, target)] <= distances[(a, b)]
            + distances[(b, target)]
}

/// Where the distances obey the triangle inequality, the first steps of a
/// path back from a node are together no shorter than the straight distance
/// from where they end to that node.
proof fn way_is_no_shorter_than_straight(
    osm_data: &OSMData,
    mode: TransportMode,
    distances: Map<(u64, u64), u64>,
    path: Seq<u64>,
    legs: int,
)
    requires
        1 <= legs < path.len(),
        obeys_triangle(distances, path[0]),
        route_measure(osm_data, mode, distances, path, legs) is Some,
        forall|k: int| 1 <= k <= legs ==> distances.contains_key((#[trigger] path[k], path[0])),
    ensures
        (route_measure(osm_data, mode, distances, path, legs)->0).0 >= distances[(
            path[legs],
            path[0],
        )],
    decreases legs,
{
    if legs > 1 {
        way_is_no_shorter_than_straight(osm_data, mode, distances, path, legs - 1);
        assert(distances.contains_key((path[legs], path[legs - 1])));
        assert(distances.contains_key((path[legs - 1], path[0])));
        assert(distances.contains_key((path[legs], path[0])));
    } else {
        assert(route_measure(osm_data, mode, distances, path, 0) == Some((0u64, 0u64)));
    }
}

/// Where the distances obey the triangle inequality towards the target,
/// and hold the straight distance from the start to the target, the journey
/// that a search gives is no shorter than that distance.
pub proof fn journey_is_no_shorter_than_straight(
    osm_data: &OSMData,
    start: u64,
    target: u64,
    mode: TransportMode,
    distances: Map<(u64, u64), u64>,
    journey: PathView,
)
    requires
        osm_data.node_map@.contains_key(start),
        start != target,
        spec_path_finding(osm_data, start, target, mode, distances) == Some(journey),
        obeys_triangle(distances, target),
        distances.contains_key((start, target)),
    ensures
        journey.path_length >= distances[(start, target)],
{
    let ctx = context(osm_data, start, target, mode, distances);
    journey_follows_roads(osm_data, start, target, mode, distances, journey);
    let path = journey.found_path;
    assert forall|k: int| 1 <= k <= path.len() - 1 implies distances.contains_key(
        (#[trigger] path[k], path[0]),
    ) by {
        if k < path.len() - 1 {
            assert(ctx.road(path[k + 1], path[k]));
            assert(path[k] != path[0]);
        }
    }
    way_is_no_shorter_than_straight(osm_data, mode, distances, path, path.len() - 1);
}

/// The measure of a path depends on the graph by the speeds on the path
/// alone.
proof fn measure_reads_speeds_alone(
    first: &OSMData,
    second: &OSMData,
    mode: TransportMode,
    distances: Map<(u64, u64), u64>,
    path: Seq<u64>,
    legs: int,
)
    requires
        forall|n: u64| spec_edge_speed(first, mode, n) == spec_edge_speed(second, mode, n),
    ensures
        route_measure(first, mode, distances, path, legs) == route_measure(
            second,
            mode,
            distances,
            path,
            legs,
        ),
    decreases legs,
{
    if legs > 0 {
        measure_reads_speeds_alone(first, second, mode, distances, path, legs - 1);
    }
}

/// What a search gives is settled by what it reads: two graphs with the
/// same nodes, the same lists of neighbours and the same speeds give the same
/// journey, whatever else they hold and in whatever order their maps hand
/// their entries out.
pub proof fn search_reads_content_alone(
    first: &OSMData,
    second: &OSMData,
    start: u64,
    target: u64,
    mode: TransportMode,
    distances: Map<(u64, u64), u64>,
)
    requires
        first.node_map@.dom() == second.node_map@.dom(),
        forall|n: u64|
            first.node_map@.contains_key(n) ==> (#[trigger] first.node_map@[n]).nodes@
                == second.node_map@[n].nodes@,
        forall|n: u64| spec_edge_speed(first, mode, n) == spec_edge_speed(second, mode, n),
    ensures
        spec_path_finding(first, start, target, mode, distances) == spec_path_finding(
            second,
            start,
            target,
            mode,
            distances,
        ),
{
    let a = context(first, start, target, mode, distances);
    let b = context(second, start, target, mode, distances);
    assert(a.neighbours =~= b.neighbours);
    assert(a.edge_speeds =~= b.edge_speeds);
    assert(a == b);
    let parents = a.outcome().parents;
    match ancestry(parents, start, target, parents.dom().len()) {
        Some(path) => {
            measure_reads_speeds_alone(first, second, mode, distances, path, path.len() - 1);
        },
        None => {},
    }
}

} // verus!
