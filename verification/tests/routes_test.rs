use osm_rust::data_handling::{FilterSubset, NodeSubset, OSMData};
use osm_rust::osm_parsing::Node;
use osm_rust::path_finding::nearest_road::{find_closest_road, find_closest_road_coordinate};
use osm_rust::path_finding::{PathResult, TransportMode};
use osm_rust::public_transport::ns_api::{
    copy_names, departure_of, get_next_train, read_trip, read_trips, whole_seconds,
};
use osm_rust::public_transport::public_transport::{public_transport, transit_queries};
use osm_rust::public_transport::stations::find_nearby_stations;
use osm_rust::public_transport::{
    DepartureData, PublicTransportResult, StationDepartures, TransitQuery, Trip, TripLeg,
};
use osm_rust::route_manager::route_manager::rank_routes;
use osm_rust::route_manager::transport_options::{best_route, candidate_routes, search_routes};
use osm_rust::route_manager::{Route, RouteComponent};
use osm_rust::tags::Tags;
use osm_rust::utils::distance_utilities::DistanceTable;
use std::collections::{HashMap, HashSet};

fn node(id: u64, neighbours: &[u64], tags: &[(&str, &str)]) -> Node {
    let mut attributes = Tags::new();
    attributes.insert("id".to_string(), id.to_string());
    attributes.insert("lat".to_string(), "0".to_string());
    attributes.insert("lon".to_string(), "0".to_string());
    let mut made = Node::new(&attributes);
    made.nodes = neighbours.to_vec();
    for (key, value) in tags {
        made.tags.insert(key.to_string(), value.to_string());
    }
    made
}

const STATION: [(&str, &str); 2] = [("public_transport", "station"), ("railway", "station")];

// A road 1 - 2 - 3 - 4; the traveller lives at 10 next to 1 and wants to go
// to 20 next to 4; station 30 lies next to 2 and station 40 next to 3.
fn region() -> (OSMData, DistanceTable) {
    let mut node_map = HashMap::new();
    node_map.insert(1, node(1, &[2], &[]));
    node_map.insert(2, node(2, &[1, 3], &[]));
    node_map.insert(3, node(3, &[2, 4], &[]));
    node_map.insert(4, node(4, &[3], &[]));
    node_map.insert(10, node(10, &[], &[("name", "Home")]));
    node_map.insert(20, node(20, &[], &[("name", "Work")]));
    node_map.insert(30, node(30, &[], &STATION));
    node_map.insert(40, node(40, &[], &STATION));
    node_map.insert(50, node(50, &[], &[("public_transport", "station")]));
    let node_subsets = vec![
        NodeSubset::new(HashSet::from([1, 2, 3, 4, 77]), FilterSubset::Roads),
        NodeSubset::new(HashSet::from([10, 20]), FilterSubset::AllLandmarks),
        NodeSubset::new(HashSet::from([30, 40, 50, 78]), FilterSubset::Landmark("stations".to_string())),
    ];
    let osm_data = OSMData::new(node_map, HashMap::new(), node_subsets);
    let mut distances = DistanceTable::new();
    let road = [(1u64, 0u64), (2, 1000), (3, 2000), (4, 3000)];
    for (from, at) in road {
        for (to, other) in road {
            distances.record(from, to, at.abs_diff(other));
        }
    }
    for (place, at) in [(10u64, 0u64), (30, 1000), (40, 2000), (20, 3000), (50, 1500)] {
        for (to, other) in road {
            distances.record(place, to, at.abs_diff(other) + 10);
        }
        for (station, other) in [(30u64, 1000u64), (40, 2000), (50, 1500)] {
            distances.record(place, station, at.abs_diff(other) + 20);
        }
    }
    (osm_data, distances)
}

fn departure(time: u64, duration: u64) -> DepartureData {
    DepartureData {
        time,
        duration,
        direction: "North".to_string(),
        transfers: 1,
        intermediate_stations: vec!["Middle".to_string()],
    }
}

fn path(time: u64) -> RouteComponent {
    RouteComponent::Path(PathResult::new(vec![2, 1], 5, time, 1, 2))
}

fn ride(waiting_time: u64, journey_duration: u64) -> RouteComponent {
    RouteComponent::PublicTransport(PublicTransportResult::new(
        1,
        2,
        journey_duration,
        waiting_time,
        "North".to_string(),
        0,
        Vec::new(),
    ))
}

#[test]
fn the_nearest_road_node_is_found() {
    let (osm_data, distances) = region();
    let from_point = HashMap::from([(1u64, 500u64), (2, 300), (3, 700), (10, 1), (77, 2)]);
    assert_eq!(find_closest_road_coordinate(&osm_data, &from_point), Some((2, 300)));
    assert_eq!(find_closest_road_coordinate(&osm_data, &HashMap::new()), None);
    assert_eq!(find_closest_road_coordinate(&osm_data, &HashMap::from([(10u64, 1u64)])), None);
    let mode = TransportMode::Walk(2_000_000_000);
    let snap = find_closest_road(&osm_data, 10, &mode, &distances).unwrap();
    assert_eq!(snap.found_path, vec![10, 1]);
    assert_eq!(snap.start_node, 10);
    assert_eq!(snap.end_node, 1);
    assert_eq!(snap.path_length, 10);
    assert_eq!(snap.path_time, 5);
    let by_car = find_closest_road(&osm_data, 40, &TransportMode::Car, &distances).unwrap();
    assert_eq!(by_car.end_node, 3);
    assert_eq!(by_car.path_length, 10);
    assert_eq!(by_car.path_time, 0);
    assert!(find_closest_road(&osm_data, 99, &mode, &distances).is_none());
}

#[test]
fn of_road_nodes_equally_near_the_least_is_the_nearest() {
    let (osm_data, _) = region();
    let from_point = HashMap::from([(4u64, 300u64), (2, 300), (3, 300), (1, 301)]);
    for _ in 0..20 {
        assert_eq!(find_closest_road_coordinate(&osm_data, &from_point), Some((2, 300)));
    }
    let mut distances = DistanceTable::new();
    distances.record(10, 3, 7);
    distances.record(10, 1, 7);
    distances.record(10, 4, 8);
    let mode = TransportMode::Walk(1_000_000_000);
    let snap = find_closest_road(&osm_data, 10, &mode, &distances).unwrap();
    assert_eq!(snap.end_node, 1);
    assert_eq!(snap.path_length, 7);
}

#[test]
fn without_roads_there_is_no_nearest_road() {
    let (mut osm_data, distances) = region();
    osm_data.node_subsets.remove(0);
    let mode = TransportMode::Bike(5_000_000_000);
    assert!(find_closest_road(&osm_data, 10, &mode, &distances).is_none());
    let from_point = HashMap::from([(1u64, 500u64), (2, 300)]);
    assert_eq!(find_closest_road_coordinate(&osm_data, &from_point), None);
}

#[test]
fn stations_nearby_are_railway_stations_within_reach() {
    let (osm_data, _) = region();
    let from_point = HashMap::from([(30u64, 100u64), (40, 900), (50, 10), (10, 5), (78, 1)]);
    let mut near = find_nearby_stations(&osm_data, &from_point, 500);
    near.sort();
    assert_eq!(near, vec![30]);
    let mut far = find_nearby_stations(&osm_data, &from_point, 900);
    far.sort();
    assert_eq!(far, vec![30, 40]);
    assert!(find_nearby_stations(&osm_data, &from_point, 99).is_empty());
    assert!(find_nearby_stations(&osm_data, &HashMap::new(), u64::MAX).is_empty());
}

#[test]
fn the_next_train_is_the_first_that_leaves_later() {
    let departures = vec![departure(100, 7), departure(300, 8), departure(200, 9)];
    let next = get_next_train(30, 40, &departures, 100).unwrap();
    assert_eq!(next.start_station_id, 30);
    assert_eq!(next.end_station_id, 40);
    assert_eq!(next.waiting_time, 0);
    assert_eq!(next.journey_duration, 8);
    assert_eq!(next.direction, "North");
    assert_eq!(next.transfers, 1);
    assert_eq!(next.intermediate_stations, vec!["Middle".to_string()]);
    let first = get_next_train(30, 40, &departures, 99).unwrap();
    assert_eq!(first.waiting_time, 0);
    assert_eq!(first.journey_duration, 7);
    assert!(get_next_train(30, 40, &departures, 300).is_none());
    assert!(get_next_train(30, 40, &Vec::new(), 0).is_none());
    assert_eq!(copy_names(&vec!["a".to_string(), "b".to_string()]), vec!["a", "b"]);
}

#[test]
fn the_wait_for_a_train_is_counted_in_whole_seconds() {
    let second = 1_000_000_000;
    let departures = vec![departure(4 * second, 7), departure(10 * second + 1, 8)];
    assert_eq!(get_next_train(1, 2, &departures, 2 * second + second / 2).unwrap().waiting_time, second);
    assert_eq!(get_next_train(1, 2, &departures, 2 * second).unwrap().waiting_time, 2 * second);
    assert_eq!(get_next_train(1, 2, &departures, 4 * second - 1).unwrap().waiting_time, 0);
    assert_eq!(get_next_train(1, 2, &departures, 4 * second - 1).unwrap().journey_duration, 7);
    assert_eq!(get_next_train(1, 2, &departures, 4 * second).unwrap().waiting_time, 6 * second);
    assert_eq!(get_next_train(1, 2, &departures, 4 * second).unwrap().journey_duration, 8);
    assert_eq!(whole_seconds(0), 0);
    assert_eq!(whole_seconds(999_999_999), 0);
    assert_eq!(whole_seconds(1_999_999_999), second);
    assert_eq!(whole_seconds(u64::MAX), 18_446_744_073 * second);
}

#[test]
fn the_duration_of_a_route_is_the_sum_of_its_legs() {
    assert_eq!(Route::default().total_duration(), 0);
    assert_eq!(Route::new(Vec::new()).total_duration(), 0);
    let route = Route::new(vec![path(10), ride(20, 300), path(5)]);
    assert_eq!(route.total_duration(), 335);
    let endless = Route::new(vec![path(u64::MAX), ride(1, 1)]);
    assert_eq!(endless.total_duration(), u64::MAX);
    let long_ride = Route::new(vec![ride(u64::MAX, 5)]);
    assert_eq!(long_ride.total_duration(), u64::MAX);
}

#[test]
fn routes_are_ranked_by_their_duration() {
    let routes = vec![
        Route::new(vec![path(30), path(1)]),
        Route::new(vec![path(10)]),
        Route::new(vec![ride(5, 5)]),
        Route::new(vec![path(20)]),
        Route::new(Vec::new()),
    ];
    let in_order = rank_routes(routes);
    let durations: Vec<u64> = in_order.iter().map(|route| route.total_duration()).collect();
    assert_eq!(durations, vec![0, 10, 10, 20, 31]);
    assert!(matches!(in_order[1].components[0], RouteComponent::Path(_)));
    assert!(matches!(in_order[2].components[0], RouteComponent::PublicTransport(_)));
    assert!(rank_routes(Vec::new()).is_empty());
}

#[test]
fn the_best_route_is_the_shortest() {
    assert!(best_route(Vec::new()).components.is_empty());
    let best = best_route(vec![
        Route::new(vec![path(30)]),
        Route::new(vec![path(4), path(5)]),
        Route::new(vec![path(20)]),
    ]);
    assert_eq!(best.total_duration(), 9);
    assert_eq!(best.components.len(), 2);
}

#[test]
fn a_journey_by_train_has_seven_legs() {
    let (osm_data, distances) = region();
    let mode = TransportMode::Walk(1_000_000_000);
    let timetable = vec![
        StationDepartures { start_station_id: 40, end_station_id: 30, departures: vec![departure(1, 1)] },
        StationDepartures {
            start_station_id: 30,
            end_station_id: 40,
            departures: vec![
                departure(1_000, 50),
                departure(3_500_001_120, 60),
                departure(9_000_000_000, 70),
            ],
        },
    ];
    let routes = public_transport(&osm_data, &mode, 100, 1_500, 10, 20, &distances, &timetable);
    assert_eq!(routes.len(), 1);
    let legs = &routes[0].components;
    assert_eq!(legs.len(), 7);
    let mut paths = Vec::new();
    for (at, leg) in legs.iter().enumerate() {
        match leg {
            RouteComponent::Path(path) => paths.push((at, path.found_path.clone(), path.path_time)),
            RouteComponent::PublicTransport(ride) => {
                assert_eq!(at, 3);
                assert_eq!(ride.start_station_id, 30);
                assert_eq!(ride.end_station_id, 40);
                assert_eq!(ride.waiting_time, 3_000_000_000);
                assert_eq!(ride.journey_duration, 60);
            }
        }
    }
    assert_eq!(
        paths,
        vec![
            (0, vec![10, 1], 10),
            (1, vec![2, 1], 1_000),
            (2, vec![30, 2], 10),
            (4, vec![40, 3], 10),
            (5, vec![4, 3], 1_000),
            (6, vec![20, 4], 10),
        ]
    );
    assert_eq!(
        routes[0].total_duration(),
        10 + 1_000 + 10 + 3_000_000_000 + 60 + 10 + 1_000 + 10
    );
}

#[test]
fn without_a_train_there_is_no_journey_by_train() {
    let (osm_data, distances) = region();
    let mode = TransportMode::Walk(1_000_000_000);
    assert!(public_transport(&osm_data, &mode, 100, 1_500, 10, 20, &distances, &Vec::new()).is_empty());
    let too_early = vec![StationDepartures {
        start_station_id: 30,
        end_station_id: 40,
        departures: vec![departure(1_120, 50)],
    }];
    assert!(public_transport(&osm_data, &mode, 100, 1_500, 10, 20, &distances, &too_early).is_empty());
    let in_time = vec![StationDepartures {
        start_station_id: 30,
        end_station_id: 40,
        departures: vec![departure(1_121, 50)],
    }];
    assert_eq!(public_transport(&osm_data, &mode, 100, 1_500, 10, 20, &distances, &in_time).len(), 1);
    assert!(public_transport(&osm_data, &mode, 100, 900, 10, 20, &distances, &in_time).is_empty());
    assert!(public_transport(&osm_data, &mode, 100, 1_500, 10, 20, &DistanceTable::new(), &in_time)
        .is_empty());
}

#[test]
fn the_shortest_journey_on_offer_is_chosen() {
    let (osm_data, distances) = region();
    let mode = TransportMode::Walk(1_000_000_000);
    let slow_train = vec![StationDepartures {
        start_station_id: 30,
        end_station_id: 40,
        departures: vec![departure(2_000, 5_000)],
    }];
    let offered = candidate_routes(&osm_data, &mode, 100, 10, 20, 1_500, &distances, &slow_train);
    assert_eq!(offered.len(), 2);
    assert_eq!(offered[0].components.len(), 7);
    assert_eq!(offered[0].total_duration(), 1_020 + 5_000 + 1_020);
    assert_eq!(offered[1].components.len(), 1);
    assert_eq!(offered[1].total_duration(), 3_000);
    let on_foot = search_routes(&osm_data, &mode, 100, 10, 20, 1_500, &distances, &slow_train);
    assert_eq!(on_foot.components.len(), 1);
    assert_eq!(on_foot.total_duration(), 3_000);
    let fast_train = vec![StationDepartures {
        start_station_id: 30,
        end_station_id: 40,
        departures: vec![departure(1_130, 20)],
    }];
    let by_train = search_routes(&osm_data, &mode, 100, 10, 20, 1_500, &distances, &fast_train);
    assert_eq!(by_train.components.len(), 7);
    assert_eq!(by_train.total_duration(), 2_060);
    let nowhere = search_routes(&osm_data, &mode, 100, 10, 20, 1_500, &DistanceTable::new(), &fast_train);
    assert!(nowhere.components.is_empty());
}

fn leg(planned: Option<&str>, direction: Option<&str>, origin: &str) -> TripLeg {
    TripLeg {
        planned_departure: planned.map(|text| text.to_string()),
        direction: direction.map(|text| text.to_string()),
        origin_name: origin.to_string(),
    }
}

fn trip(status: &str, legs: Vec<TripLeg>) -> Trip {
    Trip { status: status.to_string(), duration: 600, transfers: 2, legs }
}

#[test]
fn a_trip_that_runs_as_planned_offers_a_departure() {
    let planned = trip(
        "NORMAL",
        vec![
            leg(Some("2024-05-01T12:00:00Z"), Some("Utrecht"), "Weert"),
            leg(Some("2024-05-01T12:30:00Z"), Some("Amsterdam"), "Eindhoven"),
            leg(None, None, "Utrecht"),
        ],
    );
    let departure = read_trip(&planned).unwrap();
    assert_eq!(departure.time, 1_714_564_800_000_000_000);
    assert_eq!(departure.duration, 600);
    assert_eq!(departure.transfers, 2);
    assert_eq!(departure.direction, "Utrecht");
    assert_eq!(departure.intermediate_stations, vec!["Eindhoven", "Utrecht"]);
    let with_offset = trip("NORMAL", vec![leg(Some("2024-05-01T14:00:00+02:00"), Some("Utrecht"), "Weert")]);
    assert_eq!(read_trip(&with_offset).unwrap().time, 1_714_564_800_000_000_000);
    let with_fraction = trip("NORMAL", vec![leg(Some("1970-01-01 00:00:01.5Z"), Some("Utrecht"), "Weert")]);
    assert_eq!(read_trip(&with_fraction).unwrap().time, 1_500_000_000);
}

#[test]
fn a_trip_that_does_not_run_as_planned_offers_nothing() {
    let cancelled = trip("CANCELLED", vec![leg(Some("2024-05-01T12:00:00Z"), Some("Utrecht"), "Weert")]);
    assert!(read_trip(&cancelled).is_none());
    assert!(read_trip(&trip("unknown", Vec::new())).is_none());
    assert!(read_trip(&trip("normal", Vec::new())).is_none());
    assert!(departure_of(&cancelled, Some(5)).is_none());
}

#[test]
fn a_trip_that_does_not_say_when_it_leaves_leaves_at_the_epoch() {
    for first in [
        leg(None, Some("Utrecht"), "Weert"),
        leg(Some("2024-05-01T12:00:00Z"), None, "Weert"),
        leg(Some("tomorrow at noon"), Some("Utrecht"), "Weert"),
        leg(Some("2024-05-01"), Some("Utrecht"), "Weert"),
    ] {
        let unclear = trip("NORMAL", vec![first, leg(None, None, "Eindhoven")]);
        let departure = read_trip(&unclear).unwrap();
        assert_eq!(departure.time, 0);
        assert_eq!(departure.duration, 0);
        assert_eq!(departure.transfers, 0);
        assert_eq!(departure.direction, "");
        assert_eq!(departure.intermediate_stations, vec!["Eindhoven"]);
    }
    let without_legs = read_trip(&trip("NORMAL", Vec::new())).unwrap();
    assert_eq!(without_legs.time, 0);
    assert!(without_legs.intermediate_stations.is_empty());
    let before_the_epoch = trip("NORMAL", vec![leg(Some("1969-12-31T23:00:00Z"), Some("Utrecht"), "Weert")]);
    let departure = read_trip(&before_the_epoch).unwrap();
    assert_eq!(departure.time, 0);
    assert_eq!(departure.duration, 600);
    assert_eq!(departure.direction, "Utrecht");
}

#[test]
fn the_instant_read_decides_the_departure() {
    let planned = trip("NORMAL", vec![leg(Some("whatever"), Some("Utrecht"), "Weert")]);
    let read = departure_of(&planned, Some(42)).unwrap();
    assert_eq!(read.time, 42);
    assert_eq!(read.duration, 600);
    let early = departure_of(&planned, Some(-42)).unwrap();
    assert_eq!(early.time, 0);
    assert_eq!(early.duration, 600);
    let unread = departure_of(&planned, None).unwrap();
    assert_eq!(unread.time, 0);
    assert_eq!(unread.duration, 0);
}

#[test]
fn trips_are_read_in_their_order() {
    let trips = vec![
        trip("NORMAL", vec![leg(Some("1970-01-01T00:00:03Z"), Some("A"), "X")]),
        trip("DISRUPTION", vec![leg(Some("1970-01-01T00:00:02Z"), Some("B"), "X")]),
        trip("NORMAL", vec![leg(Some("1970-01-01T00:00:01Z"), Some("C"), "X")]),
    ];
    let departures = read_trips(&trips);
    let times: Vec<(u64, String)> =
        departures.into_iter().map(|departure| (departure.time, departure.direction)).collect();
    assert_eq!(
        times,
        vec![(3_000_000_000, "A".to_string()), (1_000_000_000, "C".to_string())]
    );
    assert!(read_trips(&Vec::new()).is_empty());
}

#[test]
fn a_station_in_two_subsets_is_listed_once() {
    let (mut osm_data, distances) = region();
    osm_data.node_subsets.push(NodeSubset::new(
        HashSet::from([30, 40]),
        FilterSubset::Landmark("stations".to_string()),
    ));
    let from_point = HashMap::from([(30u64, 100u64), (40, 900)]);
    let mut near = find_nearby_stations(&osm_data, &from_point, 1_000);
    near.sort();
    assert_eq!(near, vec![30, 40]);
    let mode = TransportMode::Walk(1_000_000_000);
    let timetable = vec![StationDepartures {
        start_station_id: 30,
        end_station_id: 40,
        departures: vec![departure(5_000, 60)],
    }];
    let routes = public_transport(&osm_data, &mode, 100, 1_500, 10, 20, &distances, &timetable);
    assert_eq!(routes.len(), 1);
}

#[test]
fn the_schedule_is_asked_once_about_each_pair_of_stations() {
    let (osm_data, distances) = region();
    let mode = TransportMode::Walk(1_000_000_000);
    let mut queries = transit_queries(&osm_data, &mode, 100, 2_500, 10, 20, &distances);
    queries.sort_by_key(|query| (query.start_station_id, query.end_station_id));
    assert_eq!(
        queries,
        vec![
            TransitQuery { start_station_id: 30, end_station_id: 40, earliest: 100 + 1_020 },
            TransitQuery { start_station_id: 40, end_station_id: 30, earliest: 100 + 2_020 },
        ]
    );
    let near = transit_queries(&osm_data, &mode, 7, 1_500, 10, 20, &distances);
    assert_eq!(
        near,
        vec![TransitQuery { start_station_id: 30, end_station_id: 40, earliest: 7 + 1_020 }]
    );
    assert!(transit_queries(&osm_data, &mode, 7, 900, 10, 20, &distances).is_empty());
    assert!(transit_queries(&osm_data, &mode, 7, 1_500, 10, 20, &DistanceTable::new()).is_empty());
}
