//! Journeys that lead over the road to a station, by train to another
//! station, and over the road again.

use crate::data_handling::OSMData;
use crate::path_finding::nearest_road::{find_closest_road, spec_snap};
use crate::path_finding::path_finding::{road_leg, spec_road_leg};
use crate::path_finding::{outcome_view, PathResult, PathView, TransportMode};
use crate::public_transport::ns_api::{first_usable, get_next_train, is_next_train};
use crate::public_transport::stations::{find_nearby_stations, is_nearby_station};
use crate::public_transport::{
    DepartureData, PublicTransportResult, StationDepartures, TransitQuery,
};
use crate::route_manager::{Route, RouteComponent};
use crate::units::{add_capped, spec_add_capped};
use crate::utils::distance_utilities::{distances_from, DistanceTable};
use vstd::prelude::*;

verus! {

impl PublicTransportResult {
    pub fn new(
        start_station_id: u64,
        end_station_id: u64,
        journey_duration: u64,
        waiting_time: u64,
        direction: String,
        transfers: i64,
        intermediate_stations: Vec<String>,
    ) -> (r: Self)
        ensures
            r.start_station_id == start_station_id,
            r.end_station_id == end_station_id,
            r.journey_duration == journey_duration,
            r.waiting_time == waiting_time,
            r.direction == direction,
            r.transfers == transfers,
            r.intermediate_stations == intermediate_stations,
    {
        PublicTransportResult {
            start_station_id,
            end_station_id,
            journey_duration,
            waiting_time,
            direction,
            transfers,
            intermediate_stations,
        }
    }
}

/// Position of the first entry of the timetable for a pair of stations.
pub open spec fn entry_for(
    timetable: Seq<StationDepartures>,
    start_station_id: u64,
    end_station_id: u64,
    from: int,
) -> Option<int>
    decreases timetable.len() - from,
{
    if from < 0 || from >= timetable.len() {
        None
    } else if timetable[from].start_station_id == start_station_id
        && timetable[from].end_station_id == end_station_id {
        Some(from)
    } else {
        entry_for(timetable, start_station_id, end_station_id, from + 1)
    }
}

/// The departures that the timetable holds for a pair of stations: those
/// of its first entry for the pair, or none.
pub open spec fn departures_between(
    timetable: Seq<StationDepartures>,
    start_station_id: u64,
    end_station_id: u64,
) -> Seq<DepartureData> {
    match entry_for(timetable, start_station_id, end_station_id, 0) {
        Some(at) => timetable[at].departures@,
        None => Seq::empty(),
    }
}

/// Looks up the departures for a pair of stations.
fn lookup(timetable: &Vec<StationDepartures>, start_station_id: u64, end_station_id: u64) -> (r:
    Option<&Vec<DepartureData>>)
    ensures
        match r {
            Some(departures) => departures@ == departures_between(
                timetable@,
                start_station_id,
                end_station_id,
            ),
            None => departures_between(timetable@, start_station_id, end_station_id).len() == 0,
        },
{
    let mut i: usize = 0;
    while i < timetable.len()
        invariant
            i <= timetable@.len(),
            entry_for(timetable@, start_station_id, end_station_id, 0) == entry_for(
                timetable@,
                start_station_id,
                end_station_id,
                i as int,
            ),
        decreases timetable@.len() - i,
    {
        if timetable[i].start_station_id == start_station_id && timetable[i].end_station_id
            == end_station_id {
            return Some(&timetable[i].departures);
        }
        i += 1;
    }
    None
}

/// The instant at which a traveller who sets out at `time` is at the
/// station, after the three legs that lead there.
pub open spec fn arrival_at_station(
    time: u64,
    to_road: u64,
    along_road: u64,
    to_station: u64,
) -> u64 {
    spec_add_capped(time, spec_add_capped(spec_add_capped(to_road, along_road), to_station))
}

/// All that a journey by train is made of.
pub struct Transit {
    pub osm_data: OSMData,
    pub mode: TransportMode,
    /// The instant at which the traveller sets out.
    pub time: u64,
    /// How far a station may be from either end.
    pub reach: u64,
    pub start: u64,
    pub target: u64,
}

impl Transit {
    /// The road legs of a journey over the stations `from` and `to`: to
    /// the road, along it to the road of the first station, to that station;
    /// and from the second station to its road, along it to the road of the
    /// target, to the target. There are none where a leg is missing.
    pub open spec fn legs(self, distances: Map<(u64, u64), u64>, from: u64, to: u64) -> Option<
        (PathView, PathView, PathView, PathView, PathView, PathView),
    > {
        match (
            spec_snap(&self.osm_data, distances, self.mode, self.start),
            spec_snap(&self.osm_data, distances, self.mode, from),
            spec_snap(&self.osm_data, distances, self.mode, to),
            spec_snap(&self.osm_data, distances, self.mode, self.target),
        ) {
            (Some(to_road), Some(to_station), Some(from_station), Some(from_road)) => match (
                spec_road_leg(
                    &self.osm_data,
                    distances,
                    self.mode,
                    to_road.end_node,
                    to_station.end_node,
                ),
                spec_road_leg(
                    &self.osm_data,
                    distances,
                    self.mode,
                    from_station.end_node,
                    from_road.end_node,
                ),
            ) {
                (Some(along_start), Some(along_target)) => Some(
                    (to_road, along_start, to_station, from_station, along_target, from_road),
                ),
                _ => None,
            },
            _ => None,
        }
    }

    /// The two stations are different, the first is near the start and the
    /// second near the target.
    pub open spec fn pair_nearby(self, distances: Map<(u64, u64), u64>, from: u64, to: u64) -> bool {
        &&& from != to
        &&& is_nearby_station(
            &self.osm_data,
            distances_from(distances, self.start),
            self.reach,
            from,
        )
        &&& is_nearby_station(
            &self.osm_data,
            distances_from(distances, self.target),
            self.reach,
            to,
        )
    }

    /// A journey leads over the stations `from` and `to`: they are a pair
    /// nearby, no road leg is missing, and a train leaves the first for the
    /// second after the traveller has arrived there.
    pub open spec fn served(
        self,
        distances: Map<(u64, u64), u64>,
        timetable: Seq<StationDepartures>,
        from: u64,
        to: u64,
    ) -> bool {
        &&& self.pair_nearby(distances, from, to)
        &&& self.legs(distances, from, to) matches Some(legs)
        &&& first_usable(
            departures_between(timetable, from, to),
            arrival_at_station(self.time, legs.0.path_time, legs.1.path_time, legs.2.path_time),
            0,
        ) is Some
    }

    /// `route` is the journey over the stations `from` and `to`: its seven
    /// legs are the road legs with the ride on the next train between them.
    pub open spec fn is_journey(
        self,
        distances: Map<(u64, u64), u64>,
        timetable: Seq<StationDepartures>,
        from: u64,
        to: u64,
        route: Route,
    ) -> bool {
        &&& self.pair_nearby(distances, from, to)
        &&& self.legs(distances, from, to) matches Some(legs)
        &&& route.components@.len() == 7
        &&& route.components@[0] matches RouteComponent::Path(to_road)
        &&& route.components@[1] matches RouteComponent::Path(along_start)
        &&& route.components@[2] matches RouteComponent::Path(to_station)
        &&& route.components@[3] matches RouteComponent::PublicTransport(ride)
        &&& route.components@[4] matches RouteComponent::Path(from_station)
        &&& route.components@[5] matches RouteComponent::Path(along_target)
        &&& route.components@[6] matches RouteComponent::Path(from_road)
        &&& legs == (
            to_road@,
            along_start@,
            to_station@,
            from_station@,
            along_target@,
            from_road@,
        )
        &&& is_next_train(
            Some(ride),
            from,
            to,
            departures_between(timetable, from, to),
            arrival_at_station(self.time, legs.0.path_time, legs.1.path_time, legs.2.path_time),
        )
    }
}

/// What a search for journeys by train is made of.
pub open spec fn transit(
    osm_data: &OSMData,
    mode: TransportMode,
    time: u64,
    reach: u64,
    start: u64,
    target: u64,
) -> Transit {
    Transit { osm_data: *osm_data, mode, time, reach, start, target }
}

/// `route` is a journey by train between two nodes, over some pair of
/// stations.
pub open spec fn is_transit_route(
    osm_data: &OSMData,
    mode: TransportMode,
    time: u64,
    reach: u64,
    start: u64,
    target: u64,
    distances: Map<(u64, u64), u64>,
    timetable: Seq<StationDepartures>,
    route: Route,
) -> bool {
    exists|from: u64, to: u64|
        transit(osm_data, mode, time, reach, start, target).is_journey(
            distances,
            timetable,
            from,
            to,
            route,
        )
}

/// The journey has the seven legs of a journey by train, with the ride in
/// the middle.
pub open spec fn rides(route: Route) -> bool {
    route.components@.len() == 7 && route.components@[3] is PublicTransport
}

/// The station at which the ride of a journey by train begins.
pub open spec fn first_station(route: Route) -> u64 {
    route.components@[3]->PublicTransport_0.start_station_id
}

/// The station at which the ride of a journey by train ends.
pub open spec fn second_station(route: Route) -> u64 {
    route.components@[3]->PublicTransport_0.end_station_id
}

/// No two journeys by train of the list ride between the same pair of
/// stations.
pub open spec fn one_journey_each(routes: Seq<Route>) -> bool {
    forall|a: int, b: int|
        0 <= a < b < routes.len() && rides(#[trigger] routes[a]) && rides(#[trigger] routes[b])
            ==> first_station(routes[a]) != first_station(routes[b]) || second_station(routes[a])
            != second_station(routes[b])
}

/// One of the first `upto` entries of the list is the station.
pub open spec fn among_first(list: Seq<u64>, upto: int, station: u64) -> bool {
    exists|a: int| 0 <= a < upto && a < list.len() && #[trigger] list[a] == station
}

/// The stations near a node, each once, as far as `distances` holds their
/// distances from it.
fn stations_near(osm_data: &OSMData, node: u64, reach: u64, distances: &DistanceTable) -> (r: Vec<
    u64,
>)
    ensures
        r@.no_duplicates(),
        forall|n: u64|
            r@.contains(n) <==> is_nearby_station(
                osm_data,
                distances_from(distances@, node),
                reach,
                n,
            ),
{
    match distances.row(node) {
        Some(row) => find_nearby_stations(osm_data, row, reach),
        None => Vec::new(),
    }
}

/// Puts the legs of one journey by train together.
fn compose(
    to_road: &PathResult,
    along_start: &PathResult,
    to_station: &PathResult,
    ride: PublicTransportResult,
    from_station: &PathResult,
    along_target: &PathResult,
    from_road: &PathResult,
) -> (r: Route)
    ensures
        r.components@.len() == 7,
        r.components@[0] matches RouteComponent::Path(p) && p@ == to_road@,
        r.components@[1] matches RouteComponent::Path(p) && p@ == along_start@,
        r.components@[2] matches RouteComponent::Path(p) && p@ == to_station@,
        r.components@[3] == RouteComponent::PublicTransport(ride),
        r.components@[4] matches RouteComponent::Path(p) && p@ == from_station@,
        r.components@[5] matches RouteComponent::Path(p) && p@ == along_target@,
        r.components@[6] matches RouteComponent::Path(p) && p@ == from_road@,
{
    let mut components: Vec<RouteComponent> = Vec::new();
    components.push(RouteComponent::Path(to_road.duplicate()));
    components.push(RouteComponent::Path(along_start.duplicate()));
    components.push(RouteComponent::Path(to_station.duplicate()));
    components.push(RouteComponent::PublicTransport(ride));
    components.push(RouteComponent::Path(from_station.duplicate()));
    components.push(RouteComponent::Path(along_target.duplicate()));
    components.push(RouteComponent::Path(from_road.duplicate()));
    Route::new(components)
}

/// The journey over one pair of stations, if there is one. The legs
/// that do not depend on the second station are given.
fn journey_over(
    osm_data: &OSMData,
    transport_mode: &TransportMode,
    time: u64,
    minimum_distance_to_station: u64,
    starting_node_id: u64,
    target_node_id: u64,
    distances: &DistanceTable,
    timetable: &Vec<StationDepartures>,
    start_station_id: u64,
    target_station_id: u64,
    start_to_start_road: &PathResult,
    start_road_to_station: &PathResult,
    road_to_start_station: &PathResult,
    target_road_to_target: &PathResult,
) -> (r: Option<Route>)
    requires
        transit(
            osm_data,
            *transport_mode,
            time,
            minimum_distance_to_station,
            starting_node_id,
            target_node_id,
        ).pair_nearby(distances@, start_station_id, target_station_id),
        spec_snap(osm_data, distances@, *transport_mode, starting_node_id) == Some(
            start_to_start_road@,
        ),
        spec_snap(osm_data, distances@, *transport_mode, start_station_id) == Some(
            road_to_start_station@,
        ),
        spec_snap(osm_data, distances@, *transport_mode, target_node_id) == Some(
            target_road_to_target@,
        ),
        spec_road_leg(
            osm_data,
            distances@,
            *transport_mode,
            start_to_start_road.end_node,
            road_to_start_station.end_node,
        ) == Some(start_road_to_station@),
        osm_data.node_map@.contains_key(target_road_to_target.end_node),
    ensures
        r is Some <==> transit(
            osm_data,
            *transport_mode,
            time,
            minimum_distance_to_station,
            starting_node_id,
            target_node_id,
        ).served(distances@, timetable@, start_station_id, target_station_id),
        r matches Some(route) ==> transit(
            osm_data,
            *transport_mode,
            time,
            minimum_distance_to_station,
            starting_node_id,
            target_node_id,
        ).is_journey(distances@, timetable@, start_station_id, target_station_id, route),
        r matches Some(route) ==> rides(route) && first_station(route) == start_station_id
            && second_station(route) == target_station_id,
{
    let target_station_to_target_station_road = match find_closest_road(
        osm_data,
        target_station_id,
        transport_mode,
        distances,
    ) {
        Some(path) => path,
        None => {
            return None;
        },
    };
    let target_station_road_to_target_road = match road_leg(
        osm_data,
        target_station_to_target_station_road.end_node,
        target_road_to_target.end_node,
        transport_mode,
        distances,
    ) {
        Some(path) => path,
        None => {
            return None;
        },
    };
    let time_to_station = add_capped(
        add_capped(start_to_start_road.path_time, start_road_to_station.path_time),
        road_to_start_station.path_time,
    );
    let earliest = add_capped(time, time_to_station);
    let train_departures = match lookup(timetable, start_station_id, target_station_id) {
        Some(departures) => departures,
        None => {
            return None;
        },
    };
    match get_next_train(start_station_id, target_station_id, train_departures, earliest) {
        None => None,
        Some(public_transport) => Some(
            compose(
                start_to_start_road,
                start_road_to_station,
                road_to_start_station,
                public_transport,
                &target_station_to_target_station_road,
                &target_station_road_to_target_road,
                target_road_to_target,
            ),
        ),
    }
}

/// Some journey of the list leads over the stations `from` and `to`.
pub open spec fn offers(
    routes: Seq<Route>,
    plan: Transit,
    distances: Map<(u64, u64), u64>,
    timetable: Seq<StationDepartures>,
    from: u64,
    to: u64,
) -> bool {
    exists|k: int|
        0 <= k < routes.len() && plan.is_journey(distances, timetable, from, to, #[trigger] routes[k])
}

/// Lists the journeys by train between two nodes: exactly one for every
/// pair of different stations, the first near the start and the second near the
/// target, that the road reaches on both sides and between which a train
/// leaves after the traveller has arrived. A pair for which a leg is missing
/// gives no journey. `timetable` holds the departures on offer, by pair of
/// stations.
pub fn public_transport(
    osm_data: &OSMData,
    transport_mode: &TransportMode,
    time: u64,
    minimum_distance_to_station: u64,
    starting_node_id: u64,
    target_node_id: u64,
    distances: &DistanceTable,
    timetable: &Vec<StationDepartures>,
) -> (r: Vec<Route>)
    ensures
        one_journey_each(r@),
        forall|k: int| 0 <= k < r@.len() ==> rides(#[trigger] r@[k]),
        forall|k: int|
            0 <= k < r@.len() ==> is_transit_route(
                osm_data,
                *transport_mode,
                time,
                minimum_distance_to_station,
                starting_node_id,
                target_node_id,
                distances@,
                timetable@,
                #[trigger] r@[k],
            ),
        forall|from: u64, to: u64|
            #![trigger transit(
                osm_data,
                *transport_mode,
                time,
                minimum_distance_to_station,
                starting_node_id,
                target_node_id,
            ).served(distances@, timetable@, from, to)]
            transit(
                osm_data,
                *transport_mode,
                time,
                minimum_distance_to_station,
                starting_node_id,
                target_node_id,
            ).served(distances@, timetable@, from, to) ==> offers(
                r@,
                transit(
                    osm_data,
                    *transport_mode,
                    time,
                    minimum_distance_to_station,
                    starting_node_id,
                    target_node_id,
                ),
                distances@,
                timetable@,
                from,
                to,
            ),
{
    let ghost plan = transit(
        osm_data,
        *transport_mode,
        time,
        minimum_distance_to_station,
        starting_node_id,
        target_node_id,
    );
    let mut route_options: Vec<Route> = Vec::new();
    let start_to_start_road = match find_closest_road(
        osm_data,
        starting_node_id,
        transport_mode,
        distances,
    ) {
        Some(path) => path,
        None => {
            return route_options;
        },
    };
    let target_road_to_target = match find_closest_road(
        osm_data,
        target_node_id,
        transport_mode,
        distances,
    ) {
        Some(path) => path,
        None => {
            return route_options;
        },
    };
    let stations_near_start = stations_near(
        osm_data,
        starting_node_id,
        minimum_distance_to_station,
        distances,
    );
    let stations_near_target = stations_near(
        osm_data,
        target_node_id,
        minimum_distance_to_station,
        distances,
    );
    let mut i: usize = 0;
    while i < stations_near_start.len()
        invariant
            i <= stations_near_start@.len(),
            stations_near_start@.no_duplicates(),
            stations_near_target@.no_duplicates(),
            one_journey_each(route_options@),
            forall|k: int|
                0 <= k < route_options@.len() ==> rides(#[trigger] route_options@[k])
                    && among_first(stations_near_start@, i as int, first_station(route_options@[k])),
            spec_snap(osm_data, distances@, *transport_mode, starting_node_id) == Some(
                start_to_start_road@,
            ),
            spec_snap(osm_data, distances@, *transport_mode, target_node_id) == Some(
                target_road_to_target@,
            ),
            osm_data.node_map@.contains_key(start_to_start_road.end_node),
            osm_data.node_map@.contains_key(target_road_to_target.end_node),
            plan == transit(
                osm_data,
                *transport_mode,
                time,
                minimum_distance_to_station,
                starting_node_id,
                target_node_id,
            ),
            forall|n: u64|
                stations_near_start@.contains(n) <==> is_nearby_station(
                    osm_data,
                    distances_from(distances@, starting_node_id),
                    minimum_distance_to_station,
                    n,
                ),
            forall|n: u64|
                stations_near_target@.contains(n) <==> is_nearby_station(
                    osm_data,
                    distances_from(distances@, target_node_id),
                    minimum_distance_to_station,
                    n,
                ),
            forall|k: int|
                0 <= k < route_options@.len() ==> is_transit_route(
                    osm_data,
                    *transport_mode,
                    time,
                    minimum_distance_to_station,
                    starting_node_id,
                    target_node_id,
                    distances@,
                    timetable@,
                    #[trigger] route_options@[k],
                ),
            forall|a: int, to: u64|
                0 <= a < i && #[trigger] plan.served(
                    distances@,
                    timetable@,
                    stations_near_start@[a],
                    to,
                ) ==> offers(
                    route_options@,
                    plan,
                    distances@,
                    timetable@,
                    stations_near_start@[a],
                    to,
                ),
        decreases stations_near_start@.len() - i,
    {
        let start_station_id = stations_near_start[i];
        proof {
            assert(stations_near_start@.contains(start_station_id));
        }
        let ghost outer = route_options@;
        let road_to_start_station = find_closest_road(
            osm_data,
            start_station_id,
            transport_mode,
            distances,
        );
        let start_road_to_station = match &road_to_start_station {
            Some(to_station) => road_leg(
                osm_data,
                start_to_start_road.end_node,
                to_station.end_node,
                transport_mode,
                distances,
            ),
            None => None,
        };
        let mut j: usize = 0;
        while j < stations_near_target.len()
            invariant
                j <= stations_near_target@.len(),
                i < stations_near_start@.len(),
                stations_near_start@.no_duplicates(),
                stations_near_target@.no_duplicates(),
                one_journey_each(route_options@),
                forall|k: int|
                    0 <= k < outer.len() ==> rides(#[trigger] route_options@[k]) && among_first(
                        stations_near_start@,
                        i as int,
                        first_station(route_options@[k]),
                    ),
                forall|k: int|
                    outer.len() <= k < route_options@.len() ==> rides(#[trigger] route_options@[k])
                        && first_station(route_options@[k]) == start_station_id && among_first(
                        stations_near_target@,
                        j as int,
                        second_station(route_options@[k]),
                    ),
                outcome_view(road_to_start_station) == spec_snap(
                    osm_data,
                    distances@,
                    *transport_mode,
                    start_station_id,
                ),
                road_to_start_station matches Some(to_station) ==> outcome_view(
                    start_road_to_station,
                ) == spec_road_leg(
                    osm_data,
                    distances@,
                    *transport_mode,
                    start_to_start_road.end_node,
                    to_station.end_node,
                ),
                road_to_start_station is None ==> start_road_to_station is None,
                spec_snap(osm_data, distances@, *transport_mode, starting_node_id) == Some(
                    start_to_start_road@,
                ),
                spec_snap(osm_data, distances@, *transport_mode, target_node_id) == Some(
                    target_road_to_target@,
                ),
                osm_data.node_map@.contains_key(start_to_start_road.end_node),
                osm_data.node_map@.contains_key(target_road_to_target.end_node),

                start_station_id == stations_near_start@[i as int],
                plan == transit(
                    osm_data,
                    *transport_mode,
                    time,
                    minimum_distance_to_station,
                    starting_node_id,
                    target_node_id,
                ),
                is_nearby_station(
                    osm_data,
                    distances_from(distances@, starting_node_id),
                    minimum_distance_to_station,
                    start_station_id,
                ),
                forall|n: u64|
                    stations_near_target@.contains(n) <==> is_nearby_station(
                        osm_data,
                        distances_from(distances@, target_node_id),
                        minimum_distance_to_station,
                        n,
                    ),
                forall|k: int|
                    0 <= k < route_options@.len() ==> is_transit_route(
                        osm_data,
                        *transport_mode,
                        time,
                        minimum_distance_to_station,
                        starting_node_id,
                        target_node_id,
                        distances@,
                        timetable@,
                        #[trigger] route_options@[k],
                    ),
                outer.len() <= route_options@.len(),
                forall|k: int| 0 <= k < outer.len() ==> route_options@[k] == #[trigger] outer[k],
                forall|b: int|
                    0 <= b < j && #[trigger] plan.served(
                        distances@,
                        timetable@,
                        start_station_id,
                        stations_near_target@[b],
                    ) ==> offers(
                        route_options@,
                        plan,
                        distances@,
                        timetable@,
                        start_station_id,
                        stations_near_target@[b],
                    ),
            decreases stations_near_target@.len() - j,
        {
            let target_station_id = stations_near_target[j];
            let ghost before = route_options@;
            proof {
                assert(stations_near_target@.contains(target_station_id));
            }
            if start_station_id != target_station_id {
                if let Some(to_station) = &road_to_start_station {
                    if let Some(along_start) = &start_road_to_station {
                        if let Some(route) = journey_over(
                            osm_data,
                            transport_mode,
                            time,
                            minimum_distance_to_station,
                            starting_node_id,
                            target_node_id,
                            distances,
                            timetable,
                            start_station_id,
                            target_station_id,
                            &start_to_start_road,
                            along_start,
                            to_station,
                            &target_road_to_target,
                        ) {
                            route_options.push(route);
                            proof {
                                assert(route_options@[before.len() as int] == route);
                                assert forall|a: int, b: int|
                                    0 <= a < b < route_options@.len() && rides(
                                        #[trigger] route_options@[a],
                                    ) && rides(#[trigger] route_options@[b]) implies first_station(
                                    route_options@[a],
                                ) != first_station(route_options@[b]) || second_station(
                                    route_options@[a],
                                ) != second_station(route_options@[b]) by {
                                    assert(route_options@[a] == before[a]);
                                    if b < before.len() {
                                        assert(route_options@[b] == before[b]);
                                    } else if a < outer.len() {
                                        let x = choose|x: int|
                                            0 <= x < i && x < stations_near_start@.len()
                                                && #[trigger] stations_near_start@[x]
                                                == first_station(before[a]);
                                        assert(stations_near_start@[x] != stations_near_start@[i as int]);
                                    } else {
                                        let y = choose|y: int|
                                            0 <= y < j && y < stations_near_target@.len()
                                                && #[trigger] stations_near_target@[y]
                                                == second_station(before[a]);
                                        assert(stations_near_target@[y] != stations_near_target@[j as int]);
                                    }
                                }
                                assert(among_first(
                                    stations_near_target@,
                                    j + 1,
                                    second_station(route),
                                )) by {
                                    assert(stations_near_target@[j as int] == target_station_id);
                                }
                                assert(offers(
                                    route_options@,
                                    plan,
                                    distances@,
                                    timetable@,
                                    start_station_id,
                                    target_station_id,
                                ));
                            }
                        }
                    }
                }
            }
            proof {
                assert forall|k: int| 0 <= k < before.len() implies route_options@[k] == before[k] by {}
                assert forall|k: int|
                    outer.len() <= k < route_options@.len() implies rides(
                    #[trigger] route_options@[k],
                ) && first_station(route_options@[k]) == start_station_id && among_first(
                    stations_near_target@,
                    j + 1,
                    second_station(route_options@[k]),
                ) by {
                    if k < before.len() {
                        assert(route_options@[k] == before[k]);
                        let y = choose|y: int|
                            0 <= y < j && y < stations_near_target@.len()
                                && #[trigger] stations_near_target@[y] == second_station(before[k]);
                        assert(stations_near_target@[y] == second_station(route_options@[k]));
                    }
                }
                assert forall|b: int|
                    0 <= b < j + 1 && #[trigger] plan.served(
                        distances@,
                        timetable@,
                        start_station_id,
                        stations_near_target@[b],
                    ) implies offers(
                    route_options@,
                    plan,
                    distances@,
                    timetable@,
                    start_station_id,
                    stations_near_target@[b],
                ) by {
                    if b < j {
                        let to = stations_near_target@[b];
                        assert(offers(before, plan, distances@, timetable@, start_station_id, to));
                        let k = choose|k: int|
                            0 <= k < before.len() && plan.is_journey(
                                distances@,
                                timetable@,
                                start_station_id,
                                to,
                                #[trigger] before[k],
                            );
                        assert(route_options@[k] == before[k]);
                    }
                }
            }
            j += 1;
        }
        proof {
            assert forall|k: int| 0 <= k < route_options@.len() implies rides(
                #[trigger] route_options@[k],
            ) && among_first(stations_near_start@, i + 1, first_station(route_options@[k])) by {
                if k < outer.len() {
                    let x = choose|x: int|
                        0 <= x < i && x < stations_near_start@.len()
                            && #[trigger] stations_near_start@[x] == first_station(
                            route_options@[k],
                        );
                    assert(stations_near_start@[x] == first_station(route_options@[k]));
                } else {
                    assert(stations_near_start@[i as int] == first_station(route_options@[k]));
                }
            }
            assert forall|a: int, to: u64|
                0 <= a < i + 1 && #[trigger] plan.served(
                    distances@,
                    timetable@,
                    stations_near_start@[a],
                    to,
                ) implies offers(
                route_options@,
                plan,
                distances@,
                timetable@,
                stations_near_start@[a],
                to,
            ) by {
                let from = stations_near_start@[a];
                if a < i {
                    assert(offers(outer, plan, distances@, timetable@, from, to));
                    let k = choose|k: int|
                        0 <= k < outer.len() && plan.is_journey(
                            distances@,
                            timetable@,
                            from,
                            to,
                            #[trigger] outer[k],
                        );
                    assert(route_options@[k] == outer[k]);
                } else {
                    assert(stations_near_target@.contains(to));
                    let b = choose|b: int|
                        0 <= b < stations_near_target@.len() && stations_near_target@[b] == to;
                    assert(plan.served(
                        distances@,
                        timetable@,
                        start_station_id,
                        stations_near_target@[b],
                    ));
                }
            }
        }
        i += 1;
    }
    proof {
        assert forall|from: u64, to: u64| #[trigger]
            plan.served(distances@, timetable@, from, to) implies offers(
            route_options@,
            plan,
            distances@,
            timetable@,
            from,
            to,
        ) by {
            assert(stations_near_start@.contains(from));
            let a = choose|a: int|
                0 <= a < stations_near_start@.len() && stations_near_start@[a] == from;
            assert(plan.served(distances@, timetable@, stations_near_start@[a], to));
        }
    }
    route_options
}

impl Transit {
    /// The instant at which the traveller is at the station `from`, where
    /// the three legs that lead there are not missing.
    pub open spec fn arrival(self, distances: Map<(u64, u64), u64>, from: u64) -> Option<u64> {
        match (
            spec_snap(&self.osm_data, distances, self.mode, self.start),
            spec_snap(&self.osm_data, distances, self.mode, from),
        ) {
            (Some(to_road), Some(to_station)) => match spec_road_leg(
                &self.osm_data,
                distances,
                self.mode,
                to_road.end_node,
                to_station.end_node,
            ) {
                Some(along_start) => Some(
                    arrival_at_station(
                        self.time,
                        to_road.path_time,
                        along_start.path_time,
                        to_station.path_time,
                    ),
                ),
                None => None,
            },
            _ => None,
        }
    }

    /// The schedule is to be asked about the stations `from` and `to`:
    /// they are a pair nearby, and the traveller gets to the first.
    pub open spec fn asked(self, distances: Map<(u64, u64), u64>, from: u64, to: u64) -> bool {
        self.pair_nearby(distances, from, to) && self.arrival(distances, from) is Some
    }
}

/// A journey leads over a pair of stations only where the schedule was to
/// be asked about the pair, and the train that it takes is the first to leave
/// after the instant that the question names.
pub proof fn served_pairs_are_asked(
    plan: Transit,
    distances: Map<(u64, u64), u64>,
    timetable: Seq<StationDepartures>,
    from: u64,
    to: u64,
)
    requires
        plan.served(distances, timetable, from, to),
    ensures
        plan.asked(distances, from, to),
        first_usable(
            departures_between(timetable, from, to),
            plan.arrival(distances, from)->0,
            0,
        ) is Some,
{
}

/// Some question of the list is about the stations `from` and `to`.
pub open spec fn asks(queries: Seq<TransitQuery>, from: u64, to: u64) -> bool {
    exists|k: int|
        0 <= k < queries.len() && (#[trigger] queries[k]).start_station_id == from
            && queries[k].end_station_id == to
}

/// No two questions of the list are about the same pair of stations.
pub open spec fn one_question_each(queries: Seq<TransitQuery>) -> bool {
    forall|a: int, b: int|
        0 <= a < b < queries.len() ==> (#[trigger] queries[a]).start_station_id != (
        #[trigger] queries[b]).start_station_id || queries[a].end_station_id
            != queries[b].end_station_id
}

/// Lists what the schedule is to be asked before journeys by train
/// between two nodes can be composed: one question for every pair of
/// different stations, the first near the start and the second near the
/// target, to the first of which the road leads from the start.
pub fn transit_queries(
    osm_data: &OSMData,
    transport_mode: &TransportMode,
    time: u64,
    minimum_distance_to_station: u64,
    starting_node_id: u64,
    target_node_id: u64,
    distances: &DistanceTable,
) -> (r: Vec<TransitQuery>)
    ensures
        one_question_each(r@),
        forall|k: int|
            0 <= k < r@.len() ==> transit(
                osm_data,
                *transport_mode,
                time,
                minimum_distance_to_station,
                starting_node_id,
                target_node_id,
            ).asked(distances@, (#[trigger] r@[k]).start_station_id, r@[k].end_station_id)
                && transit(
                osm_data,
                *transport_mode,
                time,
                minimum_distance_to_station,
                starting_node_id,
                target_node_id,
            ).arrival(distances@, r@[k].start_station_id) == Some(r@[k].earliest),
        forall|from: u64, to: u64|
            #![trigger transit(
                osm_data,
                *transport_mode,
                time,
                minimum_distance_to_station,
                starting_node_id,
                target_node_id,
            ).asked(distances@, from, to)]
            transit(
                osm_data,
                *transport_mode,
                time,
                minimum_distance_to_station,
                starting_node_id,
                target_node_id,
            ).asked(distances@, from, to) ==> asks(r@, from, to),
{
    let ghost plan = transit(
        osm_data,
        *transport_mode,
        time,
        minimum_distance_to_station,
        starting_node_id,
        target_node_id,
    );
    let mut queries: Vec<TransitQuery> = Vec::new();
    let start_to_start_road = match find_closest_road(
        osm_data,
        starting_node_id,
        transport_mode,
        distances,
    ) {
        Some(path) => path,
        None => {
            return queries;
        },
    };
    let stations_near_start = stations_near(
        osm_data,
        starting_node_id,
        minimum_distance_to_station,
        distances,
    );
    let stations_near_target = stations_near(
        osm_data,
        target_node_id,
        minimum_distance_to_station,
        distances,
    );
    let mut i: usize = 0;
    while i < stations_near_start.len()
        invariant
            i <= stations_near_start@.len(),
            stations_near_start@.no_duplicates(),
            stations_near_target@.no_duplicates(),
            spec_snap(osm_data, distances@, *transport_mode, starting_node_id) == Some(
                start_to_start_road@,
            ),
            osm_data.node_map@.contains_key(start_to_start_road.end_node),
            plan == transit(
                osm_data,
                *transport_mode,
                time,
                minimum_distance_to_station,
                starting_node_id,
                target_node_id,
            ),
            forall|n: u64|
                stations_near_start@.contains(n) <==> is_nearby_station(
                    osm_data,
                    distances_from(distances@, starting_node_id),
                    minimum_distance_to_station,
                    n,
                ),
            forall|n: u64|
                stations_near_target@.contains(n) <==> is_nearby_station(
                    osm_data,
                    distances_from(distances@, target_node_id),
                    minimum_distance_to_station,
                    n,
                ),
            one_question_each(queries@),
            forall|k: int|
                0 <= k < queries@.len() ==> plan.asked(
                    distances@,
                    (#[trigger] queries@[k]).start_station_id,
                    queries@[k].end_station_id,
                ) && plan.arrival(distances@, queries@[k].start_station_id) == Some(
                    queries@[k].earliest,
                ) && among_first(stations_near_start@, i as int, queries@[k].start_station_id),
            forall|a: int, to: u64|
                0 <= a < i && #[trigger] plan.asked(distances@, stations_near_start@[a], to) ==> asks(
                    queries@,
                    stations_near_start@[a],
                    to,
                ),
        decreases stations_near_start@.len() - i,
    {
        let start_station_id = stations_near_start[i];
        proof {
            assert(stations_near_start@.contains(start_station_id));
        }
        let ghost outer = queries@;
        let road_to_start_station = find_closest_road(
            osm_data,
            start_station_id,
            transport_mode,
            distances,
        );
        let start_road_to_station = match &road_to_start_station {
            Some(to_station) => road_leg(
                osm_data,
                start_to_start_road.end_node,
                to_station.end_node,
                transport_mode,
                distances,
            ),
            None => None,
        };
        let earliest = match (&road_to_start_station, &start_road_to_station) {
            (Some(to_station), Some(along_start)) => Some(
                add_capped(
                    time,
                    add_capped(
                        add_capped(start_to_start_road.path_time, along_start.path_time),
                        to_station.path_time,
                    ),
                ),
            ),
            _ => None,
        };
        assert(earliest == plan.arrival(distances@, start_station_id));
        let mut j: usize = 0;
        while j < stations_near_target.len()
            invariant
                j <= stations_near_target@.len(),
                i < stations_near_start@.len(),
                start_station_id == stations_near_start@[i as int],
                stations_near_start@.no_duplicates(),
                stations_near_target@.no_duplicates(),
                earliest == plan.arrival(distances@, start_station_id),
                plan == transit(
                    osm_data,
                    *transport_mode,
                    time,
                    minimum_distance_to_station,
                    starting_node_id,
                    target_node_id,
                ),
                is_nearby_station(
                    osm_data,
                    distances_from(distances@, starting_node_id),
                    minimum_distance_to_station,
                    start_station_id,
                ),
                forall|n: u64|
                    stations_near_target@.contains(n) <==> is_nearby_station(
                        osm_data,
                        distances_from(distances@, target_node_id),
                        minimum_distance_to_station,
                        n,
                    ),
                one_question_each(queries@),
                outer.len() <= queries@.len(),
                forall|k: int| 0 <= k < outer.len() ==> queries@[k] == #[trigger] outer[k],
                forall|k: int|
                    0 <= k < queries@.len() ==> plan.asked(
                        distances@,
                        (#[trigger] queries@[k]).start_station_id,
                        queries@[k].end_station_id,
                    ) && plan.arrival(distances@, queries@[k].start_station_id) == Some(
                        queries@[k].earliest,
                    ),
                forall|k: int|
                    0 <= k < outer.len() ==> among_first(
                        stations_near_start@,
                        i as int,
                        (#[trigger] queries@[k]).start_station_id,
                    ),
                forall|k: int|
                    outer.len() <= k < queries@.len() ==> (#[trigger] queries@[k]).start_station_id
                        == start_station_id && among_first(
                        stations_near_target@,
                        j as int,
                        queries@[k].end_station_id,
                    ),
                forall|b: int|
                    0 <= b < j && #[trigger] plan.asked(
                        distances@,
                        start_station_id,
                        stations_near_target@[b],
                    ) ==> asks(queries@, start_station_id, stations_near_target@[b]),
            decreases stations_near_target@.len() - j,
        {
            let target_station_id = stations_near_target[j];
            let ghost before = queries@;
            proof {
                assert(stations_near_target@.contains(target_station_id));
            }
            if start_station_id != target_station_id {
                if let Some(instant) = earliest {
                    queries.push(
                        TransitQuery {
                            start_station_id,
                            end_station_id: target_station_id,
                            earliest: instant,
                        },
                    );
                    proof {
                        let asked = queries@[before.len() as int];
                        assert(asks(queries@, start_station_id, target_station_id));
                        assert forall|a: int, b: int| 0 <= a < b < queries@.len() implies (
                        #[trigger] queries@[a]).start_station_id != (
                        #[trigger] queries@[b]).start_station_id || queries@[a].end_station_id
                            != queries@[b].end_station_id by {
                            assert(queries@[a] == before[a]);
                            if b < before.len() {
                                assert(queries@[b] == before[b]);
                            } else if a < outer.len() {
                                let x = choose|x: int|
                                    0 <= x < i && x < stations_near_start@.len()
                                        && #[trigger] stations_near_start@[x]
                                        == before[a].start_station_id;
                                assert(stations_near_start@[x] != stations_near_start@[i as int]);
                            } else {
                                let y = choose|y: int|
                                    0 <= y < j && y < stations_near_target@.len()
                                        && #[trigger] stations_near_target@[y]
                                        == before[a].end_station_id;
                                assert(stations_near_target@[y] != stations_near_target@[j as int]);
                            }
                        }
                        assert(among_first(stations_near_target@, j + 1, asked.end_station_id)) by {
                            assert(stations_near_target@[j as int] == target_station_id);
                        }
                    }
                }
            }
            proof {
                assert forall|k: int| 0 <= k < before.len() implies queries@[k] == before[k] by {}
                assert forall|k: int|
                    outer.len() <= k < queries@.len() implies (
                #[trigger] queries@[k]).start_station_id == start_station_id && among_first(
                    stations_near_target@,
                    j + 1,
                    queries@[k].end_station_id,
                ) by {
                    if k < before.len() {
                        assert(queries@[k] == before[k]);
                        let y = choose|y: int|
                            0 <= y < j && y < stations_near_target@.len()
                                && #[trigger] stations_near_target@[y] == before[k].end_station_id;
                        assert(stations_near_target@[y] == queries@[k].end_station_id);
                    }
                }
                assert forall|b: int|
                    0 <= b < j + 1 && #[trigger] plan.asked(
                        distances@,
                        start_station_id,
                        stations_near_target@[b],
                    ) implies asks(queries@, start_station_id, stations_near_target@[b]) by {
                    if b < j {
                        let to = stations_near_target@[b];
                        assert(asks(before, start_station_id, to));
                        let k = choose|k: int|
                            0 <= k < before.len() && (#[trigger] before[k]).start_station_id
                                == start_station_id && before[k].end_station_id == to;
                        assert(queries@[k] == before[k]);
                    }
                }
            }
            j += 1;
        }
        proof {
            assert forall|k: int| 0 <= k < queries@.len() implies among_first(
                stations_near_start@,
                i + 1,
                (#[trigger] queries@[k]).start_station_id,
            ) by {
                if k < outer.len() {
                    let x = choose|x: int|
                        0 <= x < i && x < stations_near_start@.len()
                            && #[trigger] stations_near_start@[x] == queries@[k].start_station_id;
                    assert(stations_near_start@[x] == queries@[k].start_station_id);
                } else {
                    assert(stations_near_start@[i as int] == queries@[k].start_station_id);
                }
            }
            assert forall|a: int, to: u64|
                0 <= a < i + 1 && #[trigger] plan.asked(
                    distances@,
                    stations_near_start@[a],
                    to,
                ) implies asks(queries@, stations_near_start@[a], to) by {
                let from = stations_near_start@[a];
                if a < i {
                    assert(asks(outer, from, to));
                    let k = choose|k: int|
                        0 <= k < outer.len() && (#[trigger] outer[k]).start_station_id == from
                            && outer[k].end_station_id == to;
                    assert(queries@[k] == outer[k]);
                } else {
                    assert(stations_near_target@.contains(to));
                    let b = choose|b: int|
                        0 <= b < stations_near_target@.len() && stations_near_target@[b] == to;
                    assert(plan.asked(distances@, start_station_id, stations_near_target@[b]));
                }
            }
        }
        i += 1;
    }
    proof {
        assert forall|from: u64, to: u64| #[trigger] plan.asked(distances@, from, to) implies asks(
            queries@,
            from,
            to,
        ) by {
            assert(stations_near_start@.contains(from));
            let a = choose|a: int|
                0 <= a < stations_near_start@.len() && stations_near_start@[a] == from;
            assert(plan.asked(distances@, stations_near_start@[a], to));
        }
    }
    queries
}

} // verus!
