//! Choosing among the journeys on offer between two nodes.

use crate::data_handling::OSMData;
use crate::path_finding::path_finding::{direct_route, is_direct_route, spec_direct_route};
use crate::path_finding::TransportMode;
use crate::public_transport::public_transport::{
    first_station, is_transit_route, offers, one_journey_each, public_transport, rides,
    second_station, transit, Transit,
};
use crate::public_transport::StationDepartures;
use crate::route_manager::route_manager::{duration_of, rank_routes};
use crate::route_manager::Route;
use crate::utils::distance_utilities::DistanceTable;
use vstd::prelude::*;
use vstd::seq_lib::*;

verus! {

/// Chooses the shortest of the journeys on offer: one of them that no
/// other undercuts, or the journey without legs where none is on offer.
pub fn best_route(candidates: Vec<Route>) -> (r: Route)
    ensures
        candidates@.len() == 0 ==> r.components@.len() == 0,
        candidates@.len() > 0 ==> candidates@.contains(r) && forall|i: int|
            0 <= i < candidates@.len() ==> r.spec_total_duration() <= (
            #[trigger] candidates@[i]).spec_total_duration(),
{
    let mut routes = rank_routes(candidates);
    if routes.len() == 0 {
        proof {
            routes@.to_multiset_ensures();
            candidates@.to_multiset_ensures();
        }
        return Route::default();
    }
    let ghost in_order = routes@;
    let shortest_route = routes.remove(0);
    proof {
        in_order.to_multiset_ensures();
        candidates@.to_multiset_ensures();
        assert(in_order[0] == shortest_route);
        assert(in_order.contains(shortest_route));
        assert(candidates@.to_multiset().count(shortest_route) > 0);
        assert forall|i: int| 0 <= i < candidates@.len() implies shortest_route.spec_total_duration()
            <= (#[trigger] candidates@[i]).spec_total_duration() by {
            let c = candidates@[i];
            assert(candidates@.contains(c));
            assert(in_order.to_multiset().count(c) > 0);
            assert(in_order.contains(c));
            let j = choose|j: int| 0 <= j < in_order.len() && in_order[j] == c;
            if j > 0 {
                assert(in_order[0].spec_total_duration() <= in_order[j].spec_total_duration());
            }
        }
    }
    shortest_route
}

/// `route` is a journey on offer between two nodes: a journey by train,
/// or the direct journey over the road.
pub open spec fn is_on_offer(
    osm_data: &OSMData,
    mode: TransportMode,
    time: u64,
    reach: u64,
    start: u64,
    target: u64,
    distances: Map<(u64, u64), u64>,
    timetable: Seq<StationDepartures>,
    route: Route,
) -> bool {
    is_transit_route(osm_data, mode, time, reach, start, target, distances, timetable, route)
        || is_direct_route(osm_data, mode, start, target, distances, route)
}

/// No journey is on offer between two nodes: no train serves a pair of
/// stations, and there is no direct journey.
pub open spec fn nothing_on_offer(
    plan: Transit,
    distances: Map<(u64, u64), u64>,
    timetable: Seq<StationDepartures>,
) -> bool {
    &&& forall|from: u64, to: u64| !#[trigger] plan.served(distances, timetable, from, to)
    &&& spec_direct_route(&plan.osm_data, plan.mode, plan.start, plan.target, distances) is Err
}

/// Two journeys over the same pair of stations take the same time.
pub proof fn same_stations_same_duration(
    plan: Transit,
    distances: Map<(u64, u64), u64>,
    timetable: Seq<StationDepartures>,
    from: u64,
    to: u64,
    first: Route,
    second: Route,
)
    requires
        plan.is_journey(distances, timetable, from, to, first),
        plan.is_journey(distances, timetable, from, to, second),
    ensures
        first.spec_total_duration() == second.spec_total_duration(),
{
    reveal_with_fuel(duration_of, 8);
}

/// Two direct journeys between the same nodes take the same time.
pub proof fn same_ends_same_duration(
    osm_data: &OSMData,
    mode: TransportMode,
    start: u64,
    target: u64,
    distances: Map<(u64, u64), u64>,
    first: Route,
    second: Route,
)
    requires
        is_direct_route(osm_data, mode, start, target, distances, first),
        is_direct_route(osm_data, mode, start, target, distances, second),
    ensures
        first.spec_total_duration() == second.spec_total_duration(),
{
    reveal_with_fuel(duration_of, 2);
}

/// Lists the journeys on offer between two nodes, each once: those by
/// train first, one for each pair of stations, then the direct journey where
/// there is one.
pub fn candidate_routes(
    osm_data: &OSMData,
    transport_mode: &TransportMode,
    time: u64,
    starting_node_id: u64,
    target_node_id: u64,
    minimum_distance_to_station: u64,
    distances: &DistanceTable,
    timetable: &Vec<StationDepartures>,
) -> (r: Vec<Route>)
    ensures
        forall|k: int|
            0 <= k < r@.len() ==> is_on_offer(
                osm_data,
                *transport_mode,
                time,
                minimum_distance_to_station,
                starting_node_id,
                target_node_id,
                distances@,
                timetable@,
                #[trigger] r@[k],
            ),
        forall|from: u64, to: u64|
            #![trigger transit(
                osm_data,
                *transport_mode,
                time,
                minimum_distance_to_station,
                starting_node_id,
                target_node_id,
            ).served(distances@, timetable@, from, to)]
            transit(
                osm_data,
                *transport_mode,
                time,
                minimum_distance_to_station,
                starting_node_id,
                target_node_id,
            ).served(distances@, timetable@, from, to) ==> offers(
                r@,
                transit(
                    osm_data,
                    *transport_mode,
                    time,
                    minimum_distance_to_station,
                    starting_node_id,
                    target_node_id,
                ),
                distances@,
                timetable@,
                from,
                to,
            ),
        one_journey_each(r@),
        forall|k: int| 0 <= k < r@.len() - 1 ==> rides(#[trigger] r@[k]),
        spec_direct_route(osm_data, *transport_mode, starting_node_id, target_node_id, distances@)
            is Err ==> forall|k: int| 0 <= k < r@.len() ==> rides(#[trigger] r@[k]),
        spec_direct_route(osm_data, *transport_mode, starting_node_id, target_node_id, distances@)
            is Ok ==> r@.len() > 0 && is_direct_route(
            osm_data,
            *transport_mode,
            starting_node_id,
            target_node_id,
            distances@,
            r@.last(),
        ),
{
    let ghost plan = transit(
        osm_data,
        *transport_mode,
        time,
        minimum_distance_to_station,
        starting_node_id,
        target_node_id,
    );
    let mut routes = public_transport(
        osm_data,
        transport_mode,
        time,
        minimum_distance_to_station,
        starting_node_id,
        target_node_id,
        distances,
        timetable,
    );
    if let Ok(direct_route) = direct_route(
        osm_data,
        transport_mode,
        time,
        starting_node_id,
        target_node_id,
        distances,
    ) {
        let ghost before = routes@;
        routes.push(direct_route);
        proof {
            assert forall|a: int, b: int|
                0 <= a < b < routes@.len() && rides(#[trigger] routes@[a]) && rides(
                    #[trigger] routes@[b],
                ) implies first_station(routes@[a]) != first_station(routes@[b])
                || second_station(routes@[a]) != second_station(routes@[b]) by {
                assert(routes@[a] == before[a]);
                if b < before.len() {
                    assert(routes@[b] == before[b]);
                }
            }
            assert forall|k: int| 0 <= k < routes@.len() - 1 implies rides(#[trigger] routes@[k]) by {
                assert(routes@[k] == before[k]);
            }
            assert forall|k: int| 0 <= k < routes@.len() implies is_on_offer(
                osm_data,
                *transport_mode,
                time,
                minimum_distance_to_station,
                starting_node_id,
                target_node_id,
                distances@,
                timetable@,
                #[trigger] routes@[k],
            ) by {
                if k < before.len() {
                    assert(routes@[k] == before[k]);
                }
            }
            assert forall|from: u64, to: u64| #[trigger]
                plan.served(distances@, timetable@, from, to) implies offers(
                routes@,
                plan,
                distances@,
                timetable@,
                from,
                to,
            ) by {
                assert(offers(before, plan, distances@, timetable@, from, to));
                let k = choose|k: int|
                    0 <= k < before.len() && plan.is_journey(
                        distances@,
                        timetable@,
                        from,
                        to,
                        #[trigger] before[k],
                    );
                assert(routes@[k] == before[k]);
            }
        }
    }
    routes
}

/// Searches the shortest journey between two nodes, by train or over the
/// road alone. The result is the journey without legs exactly where none is
/// on offer; else it is a journey on offer that no journey on offer
/// undercuts.
pub fn search_routes(
    osm_data: &OSMData,
    transport_mode: &TransportMode,
    time: u64,
    starting_node_id: u64,
    target_node_id: u64,
    minimum_distance_to_station: u64,
    distances: &DistanceTable,
    timetable: &Vec<StationDepartures>,
) -> (r: Route)
    ensures
        r.components@.len() == 0 <==> nothing_on_offer(
            transit(
                osm_data,
                *transport_mode,
                time,
                minimum_distance_to_station,
                starting_node_id,
                target_node_id,
            ),
            distances@,
            timetable@,
        ),
        r.components@.len() > 0 ==> is_on_offer(
            osm_data,
            *transport_mode,
            time,
            minimum_distance_to_station,
            starting_node_id,
            target_node_id,
            distances@,
            timetable@,
            r,
        ),
        forall|other: Route| #[trigger]
            is_on_offer(
                osm_data,
                *transport_mode,
                time,
                minimum_distance_to_station,
                starting_node_id,
                target_node_id,
                distances@,
                timetable@,
                other,
            ) ==> r.components@.len() > 0 && r.spec_total_duration()
                <= other.spec_total_duration(),
{
    let ghost plan = transit(
        osm_data,
        *transport_mode,
        time,
        minimum_distance_to_station,
        starting_node_id,
        target_node_id,
    );
    let routes = candidate_routes(
        osm_data,
        transport_mode,
        time,
        starting_node_id,
        target_node_id,
        minimum_distance_to_station,
        distances,
        timetable,
    );
    let ghost offered = routes@;
    let shortest_route = best_route(routes);
    proof {
        if offered.len() > 0 {
            let k = choose|k: int| 0 <= k < offered.len() && offered[k] == shortest_route;
            assert(offered[k] == shortest_route);
            if is_transit_route(
                osm_data,
                *transport_mode,
                time,
                minimum_distance_to_station,
                starting_node_id,
                target_node_id,
                distances@,
                timetable@,
                shortest_route,
            ) {
                let (from, to) = choose|from: u64, to: u64|
                    plan.is_journey(distances@, timetable@, from, to, shortest_route);
                assert(plan.served(distances@, timetable@, from, to));
            }
        } else {
            assert forall|from: u64, to: u64| !#[trigger] plan.served(
                distances@,
                timetable@,
                from,
                to,
            ) by {
                if plan.served(distances@, timetable@, from, to) {
                    assert(offers(offered, plan, distances@, timetable@, from, to));
                }
            }
        }
        assert forall|other: Route| #[trigger]
            is_on_offer(
                osm_data,
                *transport_mode,
                time,
                minimum_distance_to_station,
                starting_node_id,
                target_node_id,
                distances@,
                timetable@,
                other,
            ) implies shortest_route.components@.len() > 0 && shortest_route.spec_total_duration()
            <= other.spec_total_duration() by {
            if is_direct_route(
                osm_data,
                *transport_mode,
                starting_node_id,
                target_node_id,
                distances@,
                other,
            ) {
                same_ends_same_duration(
                    osm_data,
                    *transport_mode,
                    starting_node_id,
                    target_node_id,
                    distances@,
                    other,
                    offered.last(),
                );
                assert(offered[offered.len() - 1] == offered.last());
            } else {
                let (from, to) = choose|from: u64, to: u64|
                    plan.is_journey(distances@, timetable@, from, to, other);
                assert(plan.served(distances@, timetable@, from, to));
                assert(offers(offered, plan, distances@, timetable@, from, to));
                let k = choose|k: int|
                    0 <= k < offered.len() && plan.is_journey(
                        distances@,
                        timetable@,
                        from,
                        to,
                        #[trigger] offered[k],
                    );
                same_stations_same_duration(plan, distances@, timetable@, from, to, other, offered[k]);
            }
            let k = choose|k: int| 0 <= k < offered.len() && offered[k] == shortest_route;
            assert(offered[k] == shortest_route);
        }
    }
    shortest_route
}

} // verus!
