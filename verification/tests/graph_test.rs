use osm_rust::data_handling::{FilterSet, FilterSubset, NodeSubset, OSMData};
use osm_rust::osm_parsing::osm_parsing::{parse_xml, try_parse_xml, Ingestion, Reading, XmlEvent};
use osm_rust::osm_parsing::{Coordinate, CurrentlyReading, IngestError, Node, StateMachine, Way};
use osm_rust::tags::Tags;
use osm_rust::utils::filtering_utilities::{
    filter_amenities, filter_bus_stops, filter_highways, filter_stations,
};
use osm_rust::utils::hashmap_creation::{recreate_hashmap, standard_filters};
use osm_rust::utils::tag_name_utilities::node_name_or_address;
use std::collections::{HashMap, HashSet};

fn attributes(pairs: &[(&str, &str)]) -> Tags {
    let mut tags = Tags::new();
    for (key, value) in pairs {
        tags.insert(key.to_string(), value.to_string());
    }
    tags
}

fn start(name: &str, pairs: &[(&str, &str)]) -> XmlEvent {
    XmlEvent::Start { name: name.to_string(), attributes: attributes(pairs) }
}

fn empty(name: &str, pairs: &[(&str, &str)]) -> XmlEvent {
    XmlEvent::Empty { name: name.to_string(), attributes: attributes(pairs) }
}

fn node(id: u64, tags: &[(&str, &str)]) -> Node {
    let text = id.to_string();
    let mut made = Node::new(&attributes(&[("id", &text), ("lat", "1.5"), ("lon", "-2.25")]));
    for (key, value) in tags {
        made.tags.insert(key.to_string(), value.to_string());
    }
    made
}

fn way(id: u64, node_ids: &[u64], tags: &[(&str, &str)]) -> Way {
    let text = id.to_string();
    let mut made = Way::new(&attributes(&[("id", &text)]));
    made.node_ids = node_ids.to_vec();
    for (key, value) in tags {
        made.tags.insert(key.to_string(), value.to_string());
    }
    made
}

fn town() -> OSMData {
    let mut node_map = HashMap::new();
    for id in 1..=6u64 {
        node_map.insert(id, node(id, &[]));
    }
    node_map.insert(7, node(7, &[("amenity", "school"), ("name", "Primary School")]));
    node_map.insert(8, node(8, &[("public_transport", "station"), ("railway", "station")]));
    node_map.insert(9, node(9, &[("amenity", "cafe")]));
    node_map.insert(10, node(10, &[]));
    let mut way_map = HashMap::new();
    way_map.insert(100, way(100, &[1, 2, 3], &[("highway", "primary")]));
    way_map.insert(101, way(101, &[3, 4], &[("highway", "footway")]));
    way_map.insert(102, way(102, &[5, 6, 5], &[("building", "yes")]));
    way_map.insert(103, way(103, &[2, 99], &[("highway", "residential")]));
    OSMData::new(node_map, way_map, Vec::new())
}

fn keys<V>(map: &HashMap<u64, V>) -> HashSet<u64> {
    map.keys().copied().collect()
}

fn sorted(list: &Vec<u64>) -> Vec<u64> {
    let mut copy = list.clone();
    copy.sort();
    copy
}

#[test]
fn a_node_is_made_from_its_attributes() {
    let made = Node::new(&attributes(&[("id", "42"), ("lat", "52.3702157"), ("lon", "-4.5")]));
    assert_eq!(made.id, 42);
    assert_eq!(made.coordinate, Coordinate { longitude: -4_500_000_000, latitude: 52_370_215_700 });
    assert!(made.tags.is_empty());
    assert!(made.ways.is_empty());
    assert!(made.nodes.is_empty());
    assert_eq!(made.map_link(), "https://www.openstreetmap.org/node/42");
}

#[test]
fn a_node_without_its_attributes_is_refused() {
    let missing_id = Node::try_new(&attributes(&[("lat", "1"), ("lon", "2")]));
    assert_eq!(missing_id.err(), Some(IngestError::MissingAttribute));
    let missing_latitude = Node::try_new(&attributes(&[("id", "1"), ("lon", "2")]));
    assert_eq!(missing_latitude.err(), Some(IngestError::MissingAttribute));
    let missing_longitude = Node::try_new(&attributes(&[("id", "1"), ("lat", "2")]));
    assert_eq!(missing_longitude.err(), Some(IngestError::MissingAttribute));
    let bad_id = Node::try_new(&attributes(&[("id", "-1"), ("lat", "1"), ("lon", "2")]));
    assert_eq!(bad_id.err(), Some(IngestError::InvalidNumber));
    let bad_latitude = Node::try_new(&attributes(&[("id", "1"), ("lat", "north"), ("lon", "2")]));
    assert_eq!(bad_latitude.err(), Some(IngestError::InvalidNumber));
    let bad_longitude = Node::try_new(&attributes(&[("id", "1"), ("lat", "1"), ("lon", "2..5")]));
    assert_eq!(bad_longitude.err(), Some(IngestError::InvalidNumber));
    let first_error = Node::try_new(&attributes(&[("id", "x"), ("lon", "2")]));
    assert_eq!(first_error.err(), Some(IngestError::InvalidNumber));
}

#[test]
fn a_way_is_made_from_its_attributes() {
    let made = Way::new(&attributes(&[("id", "18446744073709551615")]));
    assert_eq!(made.id, u64::MAX);
    assert!(made.node_ids.is_empty());
    assert!(made.tags.is_empty());
    assert_eq!(made.map_link(), "https://www.openstreetmap.org/way/18446744073709551615");
    assert_eq!(Way::try_new(&attributes(&[])).err(), Some(IngestError::MissingAttribute));
    assert_eq!(
        Way::try_new(&attributes(&[("id", "18446744073709551616")])).err(),
        Some(IngestError::InvalidNumber)
    );
    assert_eq!(Way::try_new(&attributes(&[("id", "-3")])).err(), Some(IngestError::InvalidNumber));
    assert_eq!(Way::try_new(&attributes(&[("id", "42")])).unwrap().id, 42);
    assert_eq!(Node::try_new(&attributes(&[("id", "42"), ("lat", "1"), ("lon", "2")])).unwrap().id, 42);
    let zero = Way::new(&attributes(&[("id", "0")]));
    assert_eq!(zero.map_link(), "https://www.openstreetmap.org/way/0");
}

#[test]
fn the_state_machine_holds_what_it_was_given() {
    let mut machine = StateMachine::new();
    assert_eq!(*machine.current_status(), CurrentlyReading::Nothing);
    assert_eq!(machine._current_id(), None);
    machine.update(CurrentlyReading::Node(5));
    assert_eq!(*machine.current_status(), CurrentlyReading::Node(5));
    assert_eq!(machine._current_id(), Some(5));
    machine.update(CurrentlyReading::Way(6));
    assert_eq!(machine._current_id(), Some(6));
    machine.update(CurrentlyReading::Relation(0));
    assert_eq!(machine._current_id(), Some(0));
    machine.update(CurrentlyReading::Nothing);
    assert_eq!(machine._current_id(), None);
}

#[test]
fn a_document_is_read_into_nodes_and_ways() {
    let events = vec![
        start("osm", &[("version", "0.6")]),
        empty("bounds", &[("minlat", "0")]),
        start("node", &[("id", "1"), ("lat", "0.5"), ("lon", "1.5")]),
        empty("tag", &[("k", "name"), ("v", "Well")]),
        XmlEvent::End,
        empty("node", &[("id", "2"), ("lat", "0"), ("lon", "2")]),
        XmlEvent::End,
        start("way", &[("id", "10")]),
        empty("nd", &[("ref", "1")]),
        empty("nd", &[("ref", "2")]),
        empty("tag", &[("k", "highway"), ("v", "primary")]),
        XmlEvent::End,
        start("relation", &[("id", "20")]),
        empty("member", &[("type", "way"), ("ref", "10")]),
        empty("tag", &[("k", "type"), ("v", "route")]),
        XmlEvent::End,
        XmlEvent::End,
    ];
    let (node_map, way_map, node_subsets) = parse_xml(&events);
    let (same_nodes, same_ways, no_subsets) = try_parse_xml(&events).unwrap();
    assert_eq!(keys(&same_nodes), keys(&node_map));
    assert_eq!(keys(&same_ways), keys(&way_map));
    assert!(no_subsets.is_empty());
    assert!(node_subsets.is_empty());
    assert_eq!(keys(&node_map), HashSet::from([1, 2]));
    assert_eq!(keys(&way_map), HashSet::from([10]));
    assert_eq!(node_map[&1].tags.get("name"), Some(&"Well".to_string()));
    assert_eq!(node_map[&1].coordinate, Coordinate { longitude: 1_500_000_000, latitude: 500_000_000 });
    assert!(node_map[&2].tags.is_empty());
    assert_eq!(way_map[&10].node_ids, vec![1, 2]);
    assert_eq!(way_map[&10].tags.get("highway"), Some(&"primary".to_string()));
    assert_eq!(way_map[&10].tags.len(), 1);
}

#[test]
fn closing_any_element_ends_what_is_being_read() {
    let mut reader = Ingestion::new();
    assert_eq!(reader.handle(&start("way", &[("id", "10")])), Ok(Reading::Taken));
    assert_eq!(*reader.state_machine.current_status(), CurrentlyReading::Way(10));
    assert_eq!(reader.handle(&empty("nd", &[("ref", "1")])), Ok(Reading::Taken));
    assert_eq!(reader.handle(&XmlEvent::End), Ok(Reading::Taken));
    assert_eq!(*reader.state_machine.current_status(), CurrentlyReading::Nothing);
    assert_eq!(reader.handle(&empty("nd", &[("ref", "2")])), Ok(Reading::Dropped));
    assert_eq!(reader.handle(&empty("tag", &[("k", "a"), ("v", "b")])), Ok(Reading::Dropped));
    assert_eq!(reader.way_map[&10].node_ids, vec![1]);
    assert!(reader.way_map[&10].tags.is_empty());
}

#[test]
fn an_empty_node_stays_open_until_an_element_closes() {
    let mut reader = Ingestion::new();
    assert_eq!(
        reader.handle(&empty("node", &[("id", "3"), ("lat", "1"), ("lon", "1")])),
        Ok(Reading::Taken)
    );
    assert_eq!(*reader.state_machine.current_status(), CurrentlyReading::Node(3));
    assert_eq!(reader.handle(&empty("tag", &[("k", "amenity"), ("v", "bench")])), Ok(Reading::Taken));
    assert_eq!(reader.node_map[&3].tags.get("amenity"), Some(&"bench".to_string()));
    assert_eq!(reader.handle(&empty("nd", &[("ref", "7")])), Ok(Reading::Dropped));
}

#[test]
fn tags_and_references_in_a_relation_are_passed_over() {
    let mut reader = Ingestion::new();
    assert_eq!(reader.handle(&start("relation", &[("id", "20")])), Ok(Reading::Taken));
    assert_eq!(*reader.state_machine.current_status(), CurrentlyReading::Relation(0));
    assert_eq!(reader.handle(&empty("tag", &[("k", "a"), ("v", "b")])), Ok(Reading::Dropped));
    assert_eq!(reader.handle(&empty("nd", &[("ref", "7")])), Ok(Reading::Dropped));
    assert_eq!(reader.handle(&empty("member", &[("ref", "7")])), Ok(Reading::Taken));
    assert_eq!(reader.handle(&empty("meta", &[])), Ok(Reading::Taken));
    assert_eq!(reader.handle(&empty("note", &[])), Ok(Reading::Dropped));
    assert_eq!(reader.handle(&start("note", &[])), Ok(Reading::Taken));
    assert!(reader.node_map.is_empty());
    assert!(reader.way_map.is_empty());
}

#[test]
fn a_malformed_element_ends_the_reading() {
    let mut reader = Ingestion::new();
    reader.handle(&start("way", &[("id", "10")])).unwrap();
    assert_eq!(reader.handle(&empty("tag", &[("k", "a")])), Err(IngestError::MalformedTag));
    assert_eq!(
        reader.handle(&empty("tag", &[("k", "a"), ("w", "b")])),
        Err(IngestError::MalformedTag)
    );
    assert_eq!(
        reader.handle(&empty("tag", &[("k", "a"), ("v", "b"), ("x", "c")])),
        Err(IngestError::MalformedTag)
    );
    assert_eq!(reader.handle(&empty("nd", &[])), Err(IngestError::MalformedReference));
    assert_eq!(
        reader.handle(&empty("nd", &[("ref", "1"), ("x", "2")])),
        Err(IngestError::MalformedReference)
    );
    assert_eq!(reader.handle(&empty("nd", &[("ref", "one")])), Err(IngestError::InvalidNumber));
    assert_eq!(
        reader.handle(&start("node", &[("id", "1"), ("lat", "1")])),
        Err(IngestError::MissingAttribute)
    );
    assert!(reader.way_map[&10].node_ids.is_empty());
    assert!(reader.way_map[&10].tags.is_empty());
    assert_eq!(*reader.state_machine.current_status(), CurrentlyReading::Way(10));
    let events = vec![start("way", &[("id", "10")]), empty("nd", &[("ref", "1.5")]), XmlEvent::End];
    assert_eq!(try_parse_xml(&events).err(), Some(IngestError::InvalidNumber));
    let bad_identifier = vec![
        start("osm", &[]),
        empty("node", &[("id", "abc"), ("lat", "0.0"), ("lon", "0.0")]),
        XmlEvent::End,
    ];
    assert_eq!(try_parse_xml(&bad_identifier).err(), Some(IngestError::InvalidNumber));
}

#[test]
fn what_the_rules_select_is_kept_and_nothing_else() {
    let mut osm_data = town();
    let amenities = filter_amenities();
    let everything = FilterSet::default();
    let roads_before = osm_data.filter_ways(&filter_highways());
    assert_eq!(roads_before.0, HashSet::from([1, 2, 3, 99]));
    assert_eq!(roads_before.1, HashSet::from([100, 103]));
    let amenities_before = osm_data.filter_landmarks(&amenities);
    assert_eq!(amenities_before.0, HashSet::from([7]));
    assert!(amenities_before.1.is_empty());
    let landmarks_before = osm_data.filter_all_landmarks(&everything);
    assert_eq!(landmarks_before.0, HashSet::from([7, 8, 9]));
    assert!(landmarks_before.1.is_empty());

    osm_data.filter(vec![filter_highways(), filter_amenities()]);
    assert_eq!(keys(&osm_data.node_map), HashSet::from([1, 2, 3, 7]));
    assert_eq!(keys(&osm_data.way_map), HashSet::from([100, 103]));
    assert_eq!(osm_data.node_subsets.len(), 2);
    assert!(matches!(osm_data.node_subsets[0].filter_subset, FilterSubset::Roads));
    assert_eq!(osm_data.node_subsets[0].node_subset, HashSet::from([1, 2, 3, 99]));
    assert!(matches!(&osm_data.node_subsets[1].filter_subset, FilterSubset::Landmark(name) if name == "amenity"));
    assert_eq!(osm_data.node_subsets[1].node_subset, HashSet::from([7]));
}

#[test]
fn a_later_rule_takes_nothing_away() {
    let mut first = town();
    first.filter(vec![filter_highways()]);
    let mut both = town();
    both.filter(vec![filter_highways(), filter_stations(), filter_bus_stops()]);
    assert!(keys(&first.node_map).is_subset(&keys(&both.node_map)));
    assert_eq!(keys(&both.node_map), HashSet::from([1, 2, 3, 8]));
    assert_eq!(keys(&first.way_map), keys(&both.way_map));
}

#[test]
fn no_rule_keeps_nothing() {
    let mut osm_data = town();
    osm_data.filter(Vec::new());
    assert!(osm_data.node_map.is_empty());
    assert!(osm_data.way_map.is_empty());
    assert!(osm_data.node_subsets.is_empty());
}

#[test]
fn after_linking_neighbours_know_each_other() {
    let mut osm_data = town();
    osm_data.filter(vec![filter_highways()]);
    for way in osm_data.way_map.values() {
        for pair in way.node_ids.windows(2) {
            if let Some(left) = osm_data.node_map.get(&pair[0]) {
                assert!(left.nodes.contains(&pair[1]));
            }
            if let Some(right) = osm_data.node_map.get(&pair[1]) {
                assert!(right.nodes.contains(&pair[0]));
            }
        }
    }
    assert_eq!(osm_data.node_map[&1].nodes, vec![2]);
    assert_eq!(sorted(&osm_data.node_map[&2].nodes), vec![1, 3, 99]);
    assert_eq!(osm_data.node_map[&3].nodes, vec![2]);
    assert_eq!(osm_data.node_map[&1].ways, vec![100]);
    assert_eq!(sorted(&osm_data.node_map[&2].ways), vec![100, 103]);
}

#[test]
fn linking_enters_a_way_once_for_each_place() {
    let mut osm_data = town();
    osm_data.update_road_nodes();
    assert_eq!(osm_data.node_map[&5].ways, vec![102, 102]);
    assert_eq!(osm_data.node_map[&6].ways, vec![102]);
    assert_eq!(osm_data.node_map[&5].nodes, vec![6, 6]);
    assert_eq!(osm_data.node_map[&6].nodes, vec![5, 5]);
    assert!(osm_data.node_map[&10].nodes.is_empty());
    assert!(osm_data.node_map[&10].ways.is_empty());
    assert_eq!(sorted(&osm_data.node_map[&3].nodes), vec![2, 4]);
    osm_data.update_road_nodes();
    assert_eq!(osm_data.node_map[&6].ways, vec![102]);
    assert_eq!(osm_data.node_map[&6].nodes, vec![5, 5]);
    assert_eq!(osm_data.node_map[&5].nodes, vec![6, 6]);
    assert_eq!(sorted(&osm_data.node_map[&3].nodes), vec![2, 4]);
}

#[test]
fn the_speed_limit_is_that_of_the_first_way_that_states_one() {
    let mut node_map = HashMap::new();
    let mut crossing = node(1, &[]);
    crossing.ways = vec![5, 6, 7, 8];
    node_map.insert(1, crossing);
    let mut way_map = HashMap::new();
    way_map.insert(6, way(6, &[1], &[("maxspeed", "walk")]));
    way_map.insert(7, way(7, &[1], &[("maxspeed", "30.5")]));
    way_map.insert(8, way(8, &[1], &[("maxspeed", "50")]));
    let osm_data = OSMData::new(node_map, way_map, Vec::new());
    assert_eq!(osm_data.node_max_speed(1), Some(30_500_000_000));
    assert_eq!(osm_data.node_max_speed(2), None);
}

#[test]
fn the_common_rules_select_what_they_are_named_after() {
    let highways = filter_highways();
    assert_eq!(highways.filter_key, "highway");
    assert!(matches!(highways.filter_subset, FilterSubset::Roads));
    assert_eq!(highways.filter_values.len(), 13);
    for value in ["motorway", "residential", "living_street", "tertiary_link", "unclassified"] {
        assert!(highways.filter_values.contains(&value.to_string()));
    }
    assert!(!highways.filter_values.contains(&"footway".to_string()));
    let stations = filter_stations();
    assert_eq!(stations.filter_key, "public_transport");
    assert_eq!(stations.filter_values, vec!["station".to_string()]);
    assert!(matches!(&stations.filter_subset, FilterSubset::Landmark(name) if name == "stations"));
    let amenities = filter_amenities();
    assert_eq!(amenities.filter_key, "amenity");
    assert_eq!(amenities.filter_values, vec!["kindergarten", "hospital", "school", "university"]);
    assert!(matches!(&amenities.filter_subset, FilterSubset::Landmark(name) if name == "amenity"));
    let bus_stops = filter_bus_stops();
    assert_eq!(bus_stops.filter_key, "highway");
    assert_eq!(bus_stops.filter_values, vec!["bus_stop".to_string()]);
    assert!(matches!(&bus_stops.filter_subset, FilterSubset::Landmark(name) if name == "bus_stop"));
    let default = FilterSet::default();
    assert!(default.filter_key.is_empty());
    assert!(default.filter_values.is_empty());
    assert!(matches!(default.filter_subset, FilterSubset::AllLandmarks));
    assert!(matches!(FilterSubset::default(), FilterSubset::AllLandmarks));
    assert!(matches!(stations.filter_subset.duplicate(), FilterSubset::Landmark(name) if name == "stations"));
    assert!(stations.filter_subset.is_landmark("stations"));
    assert!(!stations.filter_subset.is_landmark("amenity"));
    assert!(!highways.filter_subset.is_landmark("stations"));
}

#[test]
fn the_working_graph_is_made_by_the_standard_rules() {
    let rules = standard_filters();
    assert_eq!(rules.len(), 5);
    assert!(matches!(rules[0].filter_subset, FilterSubset::Roads));
    assert!(matches!(rules[1].filter_subset, FilterSubset::AllLandmarks));
    let mut osm_data = town();
    recreate_hashmap(&mut osm_data);
    assert_eq!(keys(&osm_data.node_map), HashSet::from([1, 2, 3, 7, 8, 9]));
    assert_eq!(keys(&osm_data.way_map), HashSet::from([100, 103]));
    assert_eq!(osm_data.node_subsets.len(), 5);
    assert_eq!(osm_data.node_subsets[1].node_subset, HashSet::from([7, 8, 9]));
    assert_eq!(osm_data.node_subsets[2].node_subset, HashSet::from([8]));
    assert_eq!(osm_data.node_subsets[3].node_subset, HashSet::from([7]));
    assert!(osm_data.node_subsets[4].node_subset.is_empty());
}

#[test]
fn landmarks_are_found_by_what_their_tags_say() {
    let mut osm_data = town();
    recreate_hashmap(&mut osm_data);
    assert_eq!(osm_data.search_landmarks("School"), vec![7]);
    assert_eq!(osm_data.search_landmarks("caf"), vec![9]);
    assert_eq!(osm_data.search_landmarks("station"), vec![8, 8]);
    assert_eq!(osm_data.search_landmarks("ation"), vec![8, 8]);
    assert!(osm_data.search_landmarks("museum").is_empty());
    assert!(osm_data.search_landmarks("school").len() == 1);
    assert_eq!(sorted(&osm_data.search_landmarks("")), vec![7, 7, 8, 8, 9]);
    osm_data.node_subsets.push(NodeSubset::new(HashSet::from([9, 1, 77]), FilterSubset::AllLandmarks));
    assert_eq!(osm_data.search_landmarks("caf"), vec![9, 9]);
    assert_eq!(osm_data.search_landmarks("School"), vec![7]);
}

#[test]
fn a_node_is_called_by_its_name_or_its_address() {
    assert_eq!(
        node_name_or_address(&node(1, &[("name", "Town Hall"), ("addr:street", "Main Street")])),
        Some("Town Hall".to_string())
    );
    assert_eq!(
        node_name_or_address(&node(1, &[("addr:street", "Main Street"), ("addr:housenumber", "12a")])),
        Some("Main Street 12a".to_string())
    );
    assert_eq!(node_name_or_address(&node(1, &[("addr:street", "Main Street")])), None);
    assert_eq!(node_name_or_address(&node(1, &[("addr:housenumber", "12")])), None);
    assert_eq!(node_name_or_address(&node(1, &[])), None);
}

#[test]
fn a_subset_holds_what_it_was_given() {
    let subset = NodeSubset::new(HashSet::from([4, 5]), FilterSubset::Roads);
    assert_eq!(subset.node_subset, HashSet::from([4, 5]));
    assert!(matches!(subset.filter_subset, FilterSubset::Roads));
}

#[test]
fn linking_forgets_the_neighbours_of_ways_that_are_gone() {
    let mut osm_data = town();
    osm_data.update_road_nodes();
    assert_eq!(sorted(&osm_data.node_map[&3].nodes), vec![2, 4]);
    assert_eq!(osm_data.node_map[&4].nodes, vec![3]);
    osm_data.filter(vec![filter_highways()]);
    assert_eq!(osm_data.node_map[&3].nodes, vec![2]);
    assert_eq!(osm_data.node_map[&3].ways, vec![100]);
    let once: Vec<Vec<u64>> = (1..=3).map(|id| sorted(&osm_data.node_map[&id].nodes)).collect();
    osm_data.update_road_nodes();
    let twice: Vec<Vec<u64>> = (1..=3).map(|id| sorted(&osm_data.node_map[&id].nodes)).collect();
    assert_eq!(once, twice);
    let mut stale = town();
    stale.node_map.get_mut(&10).unwrap().nodes = vec![1, 2, 3];
    stale.update_road_nodes();
    assert!(stale.node_map[&10].nodes.is_empty());
}
