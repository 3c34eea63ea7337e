use geo::{GeodesicDistance, Point};
use osm_rust::data_handling::{FilterSubset, OSMData};
use osm_rust::osm_parsing::osm_parsing::{parse_xml, XmlEvent};
use osm_rust::osm_parsing::{Node, Way};
use osm_rust::path_finding::path_finding::{
    direct_route, measure_path, path_finding, process_found_path, road_leg, trace_path,
};
use osm_rust::path_finding::{PathResult, TransportMode};
use osm_rust::route_manager::{RouteComponent, RouteError};
use osm_rust::tags::Tags;
use osm_rust::utils::distance_utilities::DistanceTable;
use osm_rust::utils::filtering_utilities::filter_highways;
use std::collections::{HashMap, HashSet};

fn fixed(value: f64) -> u64 {
    (value * 1e9) as u64
}

fn attributes(pairs: &[(&str, &str)]) -> Tags {
    let mut tags = Tags::new();
    for (key, value) in pairs {
        tags.insert(key.to_string(), value.to_string());
    }
    tags
}

fn point(node: &Node) -> Point {
    Point::new(
        node.coordinate.longitude as f64 / 1e9,
        node.coordinate.latitude as f64 / 1e9,
    )
}

fn geodesic(osm_data: &OSMData, from: u64, to: u64) -> f64 {
    point(&osm_data.node_map[&from]).geodesic_distance(&point(&osm_data.node_map[&to]))
}

fn measure(osm_data: &OSMData, targets: &[u64]) -> DistanceTable {
    let mut table = DistanceTable::new();
    for (id, node) in osm_data.node_map.iter() {
        for neighbour in node.nodes.iter() {
            if osm_data.node_map.contains_key(neighbour) {
                table.record(*id, *neighbour, fixed(geodesic(osm_data, *id, *neighbour)));
            }
        }
        for target in targets {
            table.record(*id, *target, fixed(geodesic(osm_data, *id, *target)));
        }
    }
    table
}

fn node(id: &str, latitude: &str, longitude: &str) -> Node {
    Node::new(&attributes(&[("id", id), ("lat", latitude), ("lon", longitude)]))
}

fn road(id: &str, node_ids: &[u64]) -> Way {
    let mut way = Way::new(&attributes(&[("id", id)]));
    way.node_ids = node_ids.to_vec();
    way.tags.insert("highway".to_string(), "residential".to_string());
    way
}

fn four_nodes() -> OSMData {
    let mut node_map = HashMap::new();
    node_map.insert(1, node("1", "0", "0"));
    node_map.insert(2, node("2", "0", "1"));
    node_map.insert(3, node("3", "0", "2"));
    let mut isolated = node("4", "1", "1");
    isolated.tags.insert("name".to_string(), "Lonely".to_string());
    node_map.insert(4, isolated);
    let mut way_map = HashMap::new();
    way_map.insert(10, road("10", &[1, 2, 3]));
    OSMData::new(node_map, way_map, Vec::new())
}

fn event(kind: &str, name: &str, pairs: &[(&str, &str)]) -> XmlEvent {
    if kind == "start" {
        XmlEvent::Start { name: name.to_string(), attributes: attributes(pairs) }
    } else {
        XmlEvent::Empty { name: name.to_string(), attributes: attributes(pairs) }
    }
}

#[test]
fn pathing_test() {
    let events = vec![
        event("start", "osm", &[]),
        event("empty", "node", &[("id", "3738046045"), ("lat", "52.0907"), ("lon", "5.1214")]),
        XmlEvent::End,
        event("empty", "node", &[("id", "100"), ("lat", "52.0950"), ("lon", "5.1300")]),
        XmlEvent::End,
        event("empty", "node", &[("id", "2659727380"), ("lat", "52.1000"), ("lon", "5.1400")]),
        XmlEvent::End,
        event("start", "way", &[("id", "7")]),
        event("empty", "nd", &[("ref", "3738046045")]),
        event("empty", "nd", &[("ref", "100")]),
        event("empty", "nd", &[("ref", "2659727380")]),
        event("empty", "tag", &[("k", "highway"), ("v", "primary")]),
        XmlEvent::End,
        XmlEvent::End,
    ];
    let (node_map, way_map, node_subsets) = parse_xml(&events);
    let mut osm_data = OSMData::new(node_map, way_map, node_subsets);

    let valid_road_types = filter_highways();
    let filters = vec![valid_road_types];
    osm_data.filter(filters);

    let start_node_id: u64 = 3738046045;
    let target_node_id: u64 = 2659727380;

    let transport_mode = TransportMode::Bike(fixed(20.0 / 3.6));
    let distances = measure(&osm_data, &[target_node_id]);

    let path = path_finding(&osm_data, start_node_id, target_node_id, &transport_mode, &distances)
        .expect("Failed to find path");
    assert_eq!(path.found_path, vec![2659727380, 100, 3738046045]);
}

#[test]
fn filtering_for_roads_keeps_the_way_and_its_nodes() {
    let mut osm_data = four_nodes();
    osm_data.filter(vec![filter_highways()]);
    let kept: HashSet<u64> = osm_data.node_map.keys().copied().collect();
    assert_eq!(kept, HashSet::from([1, 2, 3]));
    let ways: HashSet<u64> = osm_data.way_map.keys().copied().collect();
    assert_eq!(ways, HashSet::from([10]));
    assert_eq!(osm_data.node_subsets.len(), 1);
    assert!(matches!(osm_data.node_subsets[0].filter_subset, FilterSubset::Roads));
    assert_eq!(osm_data.node_subsets[0].node_subset, HashSet::from([1, 2, 3]));
}

#[test]
fn walking_along_the_way_gives_the_path_back_to_front() {
    let mut osm_data = four_nodes();
    osm_data.filter(vec![filter_highways()]);
    let distances = measure(&osm_data, &[3]);
    let mode = TransportMode::Walk(1_000_000_000);
    let path = path_finding(&osm_data, 1, 3, &mode, &distances).unwrap();
    assert_eq!(path.found_path, vec![3, 2, 1]);
    let length = fixed(geodesic(&osm_data, 1, 2)) + fixed(geodesic(&osm_data, 2, 3));
    assert_eq!(path.path_length, length);
    assert_eq!(path.path_time, length);
    assert_eq!(path.start_node, 1);
    assert_eq!(path.end_node, 3);
}

#[test]
fn an_isolated_node_is_not_reached() {
    let mut osm_data = four_nodes();
    osm_data.update_road_nodes();
    let distances = measure(&osm_data, &[4]);
    let walk = TransportMode::Walk(1_000_000_000);
    assert!(path_finding(&osm_data, 1, 4, &walk, &distances).is_none());
    let bike = TransportMode::Bike(5_555_555_555);
    assert!(path_finding(&osm_data, 1, 4, &bike, &distances).is_none());
    assert!(path_finding(&osm_data, 1, 4, &TransportMode::Car, &distances).is_none());
    assert!(path_finding(&osm_data, 4, 1, &walk, &measure(&osm_data, &[1])).is_none());
}

#[test]
fn repeated_searches_give_the_same_result() {
    let mut osm_data = four_nodes();
    osm_data.filter(vec![filter_highways()]);
    let distances = measure(&osm_data, &[3]);
    let mode = TransportMode::Bike(5_555_555_555);
    let first = path_finding(&osm_data, 1, 3, &mode, &distances).unwrap();
    for _ in 0..5 {
        let again = path_finding(&osm_data, 1, 3, &mode, &distances).unwrap();
        assert_eq!(again.found_path, first.found_path);
        assert_eq!(again.path_length, first.path_length);
        assert_eq!(again.path_time, first.path_time);
    }
}

fn bare_node(id: u64, neighbours: &[u64]) -> Node {
    let mut made = node(&id.to_string(), "0", "0");
    made.nodes = neighbours.to_vec();
    made
}

fn diamond() -> (OSMData, DistanceTable) {
    let mut node_map = HashMap::new();
    node_map.insert(1, bare_node(1, &[2, 3]));
    node_map.insert(2, bare_node(2, &[1, 4]));
    node_map.insert(3, bare_node(3, &[1, 4]));
    node_map.insert(4, bare_node(4, &[2, 3]));
    let osm_data = OSMData::new(node_map, HashMap::new(), Vec::new());
    let mut distances = DistanceTable::new();
    for (from, to) in [(1, 2), (1, 3), (2, 1), (3, 1), (2, 4), (3, 4), (4, 2), (4, 3)] {
        distances.record(from, to, 100);
    }
    distances.record(1, 4, 150);
    distances.record(2, 4, 100);
    distances.record(3, 4, 100);
    (osm_data, distances)
}

#[test]
fn of_two_equal_roads_the_one_inserted_first_is_taken() {
    let (osm_data, distances) = diamond();
    let mode = TransportMode::Walk(1_000_000_000);
    for _ in 0..10 {
        let path = path_finding(&osm_data, 1, 4, &mode, &distances).unwrap();
        assert_eq!(path.found_path, vec![4, 2, 1]);
        assert_eq!(path.path_length, 200);
        assert_eq!(path.path_time, 200);
    }
}

#[test]
fn parallel_roads_between_two_nodes_give_one_path() {
    let mut node_map = HashMap::new();
    node_map.insert(1, node("1", "0", "0"));
    node_map.insert(2, node("2", "0", "1"));
    let mut way_map = HashMap::new();
    way_map.insert(10, road("10", &[1, 2]));
    way_map.insert(11, road("11", &[1, 2]));
    let mut osm_data = OSMData::new(node_map, way_map, Vec::new());
    osm_data.filter(vec![filter_highways()]);
    assert_eq!(osm_data.node_map[&1].nodes, vec![2, 2]);
    assert_eq!(osm_data.node_map[&2].nodes, vec![1, 1]);
    let distances = measure(&osm_data, &[2]);
    let mode = TransportMode::Walk(1_000_000_000);
    for _ in 0..10 {
        let path = path_finding(&osm_data, 1, 2, &mode, &distances).unwrap();
        assert_eq!(path.found_path, vec![2, 1]);
        assert_eq!(path.path_length, fixed(geodesic(&osm_data, 1, 2)));
    }
}

#[test]
fn a_path_is_never_shorter_than_the_straight_line() {
    let mut node_map = HashMap::new();
    node_map.insert(1, node("1", "0", "0"));
    node_map.insert(2, node("2", "0.5", "1"));
    node_map.insert(3, node("3", "0", "2"));
    let mut way_map = HashMap::new();
    way_map.insert(10, road("10", &[1, 2, 3]));
    let mut osm_data = OSMData::new(node_map, way_map, Vec::new());
    osm_data.filter(vec![filter_highways()]);
    let distances = measure(&osm_data, &[3]);
    let mode = TransportMode::Walk(1_500_000_000);
    let path = path_finding(&osm_data, 1, 3, &mode, &distances).unwrap();
    assert!(path.path_length >= fixed(geodesic(&osm_data, 1, 3)));
    assert!(path.path_length as f64 / 1e9 >= geodesic(&osm_data, 1, 3));
}

#[test]
fn a_road_that_was_not_measured_is_not_taken() {
    let mut osm_data = four_nodes();
    osm_data.filter(vec![filter_highways()]);
    let mut distances = DistanceTable::new();
    distances.record(1, 2, 10);
    distances.record(1, 3, 20);
    let mode = TransportMode::Walk(1_000_000_000);
    assert!(path_finding(&osm_data, 1, 3, &mode, &distances).is_none());
    distances.record(2, 3, 10);
    let path = path_finding(&osm_data, 1, 3, &mode, &distances).unwrap();
    assert_eq!(path.found_path, vec![3, 2, 1]);
    assert_eq!(path.path_length, 20);
    assert_eq!(path.path_time, 20);
}

#[test]
fn by_car_the_speed_limit_of_the_road_counts() {
    let mut osm_data = four_nodes();
    osm_data
        .way_map
        .get_mut(&10)
        .unwrap()
        .tags
        .insert("maxspeed".to_string(), "10".to_string());
    osm_data.filter(vec![filter_highways()]);
    assert_eq!(osm_data.node_max_speed(2), Some(10_000_000_000));
    assert_eq!(osm_data.node_max_speed(4), None);
    let mut distances = DistanceTable::new();
    distances.record(1, 2, 50_000_000_000);
    distances.record(2, 3, 70_000_000_000);
    distances.record(2, 1, 50_000_000_000);
    distances.record(3, 2, 70_000_000_000);
    distances.record(1, 3, 120_000_000_000);
    let path = path_finding(&osm_data, 1, 3, &TransportMode::Car, &distances).unwrap();
    assert_eq!(path.found_path, vec![3, 2, 1]);
    assert_eq!(path.path_length, 120_000_000_000);
    assert_eq!(path.path_time, 12_000_000_000);
}

#[test]
fn by_car_a_road_without_limit_is_taken_at_the_default_speed() {
    let mut osm_data = four_nodes();
    osm_data.filter(vec![filter_highways()]);
    let mut distances = DistanceTable::new();
    distances.record(1, 2, 16_666_666_666);
    distances.record(2, 3, 16_666_666_666);
    distances.record(1, 3, 33_333_333_332);
    let path = path_finding(&osm_data, 1, 3, &TransportMode::Car, &distances).unwrap();
    assert_eq!(path.path_time, 2_000_000_000);
}

#[test]
fn parent_pointers_are_walked_back_to_the_start() {
    let mut osm_data = four_nodes();
    osm_data.filter(vec![filter_highways()]);
    let mut parent_map = HashMap::new();
    parent_map.insert(1u64, 1u64);
    parent_map.insert(2, 1);
    parent_map.insert(3, 2);
    assert_eq!(trace_path(&parent_map, 1, 3), Some(vec![3, 2, 1]));
    assert_eq!(trace_path(&parent_map, 1, 1), Some(vec![1]));
    assert_eq!(trace_path(&parent_map, 1, 9), None);
    let mut distances = DistanceTable::new();
    distances.record(1, 2, 30);
    distances.record(2, 3, 40);
    let mode = TransportMode::Walk(2_000_000_000);
    assert_eq!(measure_path(&osm_data, &vec![3, 2, 1], &mode, &distances), Some((70, 35)));
    assert_eq!(measure_path(&osm_data, &vec![1, 2, 3], &mode, &distances), None);
    let path = process_found_path(&osm_data, 1, 3, &parent_map, &mode, &distances).unwrap();
    assert_eq!(path.found_path, vec![3, 2, 1]);
    assert_eq!(path.path_length, 70);
    assert_eq!(path.path_time, 35);
}

#[test]
fn parent_pointers_that_go_in_circles_lead_nowhere() {
    let osm_data = four_nodes();
    let mut parent_map = HashMap::new();
    parent_map.insert(2u64, 3u64);
    parent_map.insert(3, 2);
    assert_eq!(trace_path(&parent_map, 1, 3), None);
    let mode = TransportMode::Walk(1_000_000_000);
    let distances = DistanceTable::new();
    assert!(process_found_path(&osm_data, 1, 3, &parent_map, &mode, &distances).is_none());
}

#[test]
fn there_is_no_road_leg_from_a_node_to_itself() {
    let mut osm_data = four_nodes();
    osm_data.filter(vec![filter_highways()]);
    let distances = measure(&osm_data, &[3]);
    let mode = TransportMode::Walk(1_000_000_000);
    assert!(road_leg(&osm_data, 3, 3, &mode, &distances).is_none());
    let leg: PathResult = road_leg(&osm_data, 1, 3, &mode, &distances).unwrap();
    assert_eq!(leg.found_path, vec![3, 2, 1]);
    let copy = leg.duplicate();
    assert_eq!(copy.found_path, leg.found_path);
    assert_eq!(copy.path_time, leg.path_time);
}

#[test]
fn the_direct_route_leads_from_road_to_road() {
    let mut osm_data = four_nodes();
    osm_data.filter(vec![filter_highways()]);
    let mode = TransportMode::Walk(1_000_000_000);
    let mut distances = DistanceTable::new();
    assert_eq!(
        direct_route(&osm_data, &mode, 0, 1, 3, &distances).err(),
        Some(RouteError::NoRoad)
    );
    for (from, to, d) in [(1, 2, 10), (2, 3, 10), (2, 1, 10), (3, 2, 10), (1, 3, 20)] {
        distances.record(from, to, d);
    }
    distances.record(1, 1, 0);
    distances.record(3, 3, 0);
    let route = direct_route(&osm_data, &mode, 0, 1, 3, &distances).unwrap();
    assert_eq!(route.components.len(), 1);
    match &route.components[0] {
        RouteComponent::Path(path) => {
            assert_eq!(path.found_path, vec![3, 2, 1]);
            assert_eq!(path.path_time, 20);
        }
        RouteComponent::PublicTransport(_) => panic!("a ride on a direct route"),
    }
    assert_eq!(route.total_duration(), 20);
    let mut same = DistanceTable::new();
    same.record(1, 2, 5);
    same.record(3, 2, 5);
    assert_eq!(
        direct_route(&osm_data, &mode, 0, 1, 3, &same).err(),
        Some(RouteError::NoPath)
    );
}

#[test]
fn a_node_reached_sooner_later_leaves_its_old_entry_stale() {
    let mut node_map = HashMap::new();
    node_map.insert(1, bare_node(1, &[3, 2]));
    node_map.insert(2, bare_node(2, &[1, 3]));
    node_map.insert(3, bare_node(3, &[1, 2, 4]));
    node_map.insert(4, bare_node(4, &[3, 5]));
    node_map.insert(5, bare_node(5, &[4, 6]));
    node_map.insert(6, bare_node(6, &[5]));
    let osm_data = OSMData::new(node_map, HashMap::new(), Vec::new());
    let mut distances = DistanceTable::new();
    for node in 1..=4 {
        distances.record(node, 6, 0);
    }
    let roads = [(1, 3, 100), (1, 2, 10), (2, 3, 10), (3, 4, 10), (4, 5, 200), (5, 6, 10)];
    for (from, to, length) in roads {
        distances.record(from, to, length);
        distances.record(to, from, length);
    }
    let mode = TransportMode::Walk(1_000_000_000);
    let path = path_finding(&osm_data, 1, 6, &mode, &distances).unwrap();
    assert_eq!(path.found_path, vec![6, 5, 4, 3, 2, 1]);
    assert_eq!(path.path_length, 240);
    assert_eq!(path.path_time, 240);
}

#[test]
fn the_estimate_of_what_is_left_guides_the_search() {
    let mut node_map = HashMap::new();
    node_map.insert(1, bare_node(1, &[2, 3]));
    node_map.insert(2, bare_node(2, &[1, 4]));
    node_map.insert(3, bare_node(3, &[1, 4]));
    node_map.insert(4, bare_node(4, &[2, 3]));
    let osm_data = OSMData::new(node_map, HashMap::new(), Vec::new());
    let mut distances = DistanceTable::new();
    for (from, to, length) in [(1, 2, 1), (2, 4, 100), (1, 3, 2), (3, 4, 1)] {
        distances.record(from, to, length);
        distances.record(to, from, length);
    }
    distances.record(1, 4, 0);
    let mut closer = DistanceTable::new();
    for (from, to, length) in [(1, 2, 1), (1, 3, 2), (2, 4, 0), (3, 4, 0)] {
        closer.record(from, to, length);
    }
    let mode = TransportMode::Walk(1_000_000_000);
    let first_reached = path_finding(&osm_data, 1, 4, &mode, &closer).unwrap();
    assert_eq!(first_reached.found_path, vec![4, 2, 1]);
    let guided = path_finding(&osm_data, 1, 4, &mode, &distances).unwrap();
    assert_eq!(guided.found_path, vec![4, 3, 1]);
    assert_eq!(guided.path_length, 3);
}
