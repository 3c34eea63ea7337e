use osm_rust::decimal::{parse_signed_fixed, parse_u64, parse_unsigned_fixed};
use osm_rust::path_finding::queue_handling::PriorityQueue;
use osm_rust::path_finding::QueueItem;
use osm_rust::tags::Tags;
use osm_rust::text::{push_decimal, same_text};
use osm_rust::data_handling::searching::contains_text;
use osm_rust::units::{add_capped, travel_time, SCALE};
use osm_rust::utils::collections::{add_all, map_keys, retain_keys, set_members};
use osm_rust::utils::distance_utilities::DistanceTable;
use std::collections::{HashMap, HashSet};

#[test]
fn sums_stop_at_the_largest_value() {
    assert_eq!(add_capped(2, 3), 5);
    assert_eq!(add_capped(u64::MAX, 0), u64::MAX);
    assert_eq!(add_capped(u64::MAX - 1, 1), u64::MAX);
    assert_eq!(add_capped(u64::MAX, 1), u64::MAX);
    assert_eq!(add_capped(u64::MAX / 2 + 1, u64::MAX / 2 + 1), u64::MAX);
}

#[test]
fn travel_time_is_distance_over_speed() {
    assert_eq!(SCALE, 1_000_000_000);
    assert_eq!(travel_time(100 * SCALE, 2 * SCALE), 50 * SCALE);
    assert_eq!(travel_time(10, 3 * SCALE), 3);
    assert_eq!(travel_time(1, SCALE / 2), 2);
    assert_eq!(travel_time(7, SCALE), 7);
    assert_eq!(travel_time(0, SCALE), 0);
    assert_eq!(travel_time(0, 0), 0);
    assert_eq!(travel_time(1, 0), u64::MAX);
    assert_eq!(travel_time(u64::MAX, 1), u64::MAX);
    assert_eq!(travel_time(u64::MAX, SCALE), u64::MAX);
    assert_eq!(travel_time(u64::MAX, 2 * SCALE), u64::MAX / 2);
}

#[test]
fn identifiers_are_whole_numbers() {
    assert_eq!(parse_u64("0"), Some(0));
    assert_eq!(parse_u64("007"), Some(7));
    assert_eq!(parse_u64("+15"), Some(15));
    assert_eq!(parse_u64("3738046045"), Some(3738046045));
    assert_eq!(parse_u64("18446744073709551615"), Some(u64::MAX));
    assert_eq!(parse_u64("18446744073709551616"), None);
    assert_eq!(parse_u64("99999999999999999999999"), None);
    assert_eq!(parse_u64(""), None);
    assert_eq!(parse_u64("+"), None);
    assert_eq!(parse_u64("-1"), None);
    assert_eq!(parse_u64("1.0"), None);
    assert_eq!(parse_u64(" 1"), None);
    assert_eq!(parse_u64("1 "), None);
    assert_eq!(parse_u64("1_000"), None);
    assert_eq!(parse_u64("١"), None);
}

#[test]
fn speeds_are_read_to_nine_places() {
    assert_eq!(parse_unsigned_fixed("50"), Some(50_000_000_000));
    assert_eq!(parse_unsigned_fixed("30.5"), Some(30_500_000_000));
    assert_eq!(parse_unsigned_fixed("+0.000000001"), Some(1));
    assert_eq!(parse_unsigned_fixed("0.0000000019"), Some(1));
    assert_eq!(parse_unsigned_fixed("1.123456789123"), Some(1_123_456_789));
    assert_eq!(parse_unsigned_fixed(".5"), Some(500_000_000));
    assert_eq!(parse_unsigned_fixed("5."), Some(5_000_000_000));
    assert_eq!(parse_unsigned_fixed("18446744073.709551615"), Some(u64::MAX));
    assert_eq!(parse_unsigned_fixed("18446744073.709551616"), None);
    assert_eq!(parse_unsigned_fixed("18446744074"), None);
    assert_eq!(parse_unsigned_fixed("."), None);
    assert_eq!(parse_unsigned_fixed(""), None);
    assert_eq!(parse_unsigned_fixed("-5"), None);
    assert_eq!(parse_unsigned_fixed("30 mph"), None);
    assert_eq!(parse_unsigned_fixed("walk"), None);
    assert_eq!(parse_unsigned_fixed("1e3"), None);
    assert_eq!(parse_unsigned_fixed("1.2.3"), None);
}

#[test]
fn coordinates_carry_a_sign() {
    assert_eq!(parse_signed_fixed("52.3702157"), Some(52_370_215_700));
    assert_eq!(parse_signed_fixed("-4.5"), Some(-4_500_000_000));
    assert_eq!(parse_signed_fixed("+4.5"), Some(4_500_000_000));
    assert_eq!(parse_signed_fixed("-0"), Some(0));
    assert_eq!(parse_signed_fixed("-.25"), Some(-250_000_000));
    assert_eq!(parse_signed_fixed("9223372036.854775807"), Some(i64::MAX));
    assert_eq!(parse_signed_fixed("-9223372036.854775807"), Some(-i64::MAX));
    assert_eq!(parse_signed_fixed("9223372036.854775808"), None);
    assert_eq!(parse_signed_fixed("-9223372036.854775808"), None);
    assert_eq!(parse_signed_fixed("--1"), None);
    assert_eq!(parse_signed_fixed("-+1"), None);
    assert_eq!(parse_signed_fixed("-"), None);
    assert_eq!(parse_signed_fixed("north"), None);
}

#[test]
fn texts_are_the_same_by_content() {
    assert!(same_text("highway", "highway"));
    assert!(same_text("", ""));
    assert!(!same_text("highway", "highwaz"));
    assert!(!same_text("highway", "high"));
    assert!(!same_text("", "a"));
    assert!(same_text("Łódź", "Łódź"));
    assert!(!same_text("Łódź", "Lodz"));
}

#[test]
fn numbers_are_written_in_base_ten() {
    let mut text = String::from("n");
    push_decimal(&mut text, 0);
    assert_eq!(text, "n0");
    push_decimal(&mut text, 10);
    assert_eq!(text, "n010");
    push_decimal(&mut text, 9876543210);
    assert_eq!(text, "n0109876543210");
    let mut largest = String::new();
    push_decimal(&mut largest, u64::MAX);
    assert_eq!(largest, "18446744073709551615");
}

#[test]
fn a_text_stands_in_another() {
    assert!(contains_text("Central Station", "Station"));
    assert!(contains_text("Central Station", "Central"));
    assert!(contains_text("Central Station", "l S"));
    assert!(contains_text("Central Station", ""));
    assert!(contains_text("", ""));
    assert!(contains_text("abc", "abc"));
    assert!(!contains_text("abc", "abcd"));
    assert!(!contains_text("Central Station", "station"));
    assert!(!contains_text("", "a"));
    assert!(contains_text("aab", "ab"));
}

#[test]
fn tags_map_keys_to_values() {
    let mut tags = Tags::new();
    assert!(tags.is_empty());
    assert_eq!(tags.len(), 0);
    assert_eq!(tags.get("highway"), None);
    tags.insert("highway".to_string(), "primary".to_string());
    tags.insert("name".to_string(), "Main Street".to_string());
    assert_eq!(tags.len(), 2);
    assert!(!tags.is_empty());
    assert_eq!(tags.get("highway"), Some(&"primary".to_string()));
    assert_eq!(tags.get("name"), Some(&"Main Street".to_string()));
    assert_eq!(tags.get("nam"), None);
    assert!(tags.contains_key("name"));
    assert!(!tags.contains_key("Name"));
    tags.insert("highway".to_string(), "secondary".to_string());
    assert_eq!(tags.len(), 2);
    assert_eq!(tags.get("highway"), Some(&"secondary".to_string()));
    assert_eq!(tags.key_at(0), "highway");
    assert_eq!(tags.value_at(0), "secondary");
    assert_eq!(tags.key_at(1), "name");
    assert_eq!(tags.value_at(1), "Main Street");
}

#[test]
fn the_frontier_hands_out_the_least_cost_first() {
    let mut frontier = PriorityQueue::new();
    assert_eq!(frontier.len(), 0);
    assert_eq!(frontier.pop(), None);
    let costs = [50u64, 20, 90, 20, 10, 70, 30, 20, 60, 40];
    for (order, cost) in costs.iter().enumerate() {
        frontier.push(QueueItem::new(100 + order as u64, order, *cost, 1));
    }
    assert_eq!(frontier.len(), 10);
    let mut popped = Vec::new();
    while let Some(item) = frontier.pop() {
        popped.push((item.cost, item.order_added, item.node_id));
    }
    assert_eq!(
        popped,
        vec![
            (10, 4, 104),
            (20, 1, 101),
            (20, 3, 103),
            (20, 7, 107),
            (30, 6, 106),
            (40, 9, 109),
            (50, 0, 100),
            (60, 8, 108),
            (70, 5, 105),
            (90, 2, 102),
        ]
    );
    assert_eq!(frontier.len(), 0);
}

#[test]
fn equal_costs_leave_the_frontier_in_the_order_of_insertion() {
    let first = QueueItem::new(7, 0, 100, 40);
    let second = QueueItem::new(3, 1, 100, 10);
    assert!(first.precedes(&second));
    assert!(!second.precedes(&first));
    assert!(!first.precedes(&first));
    let same_place = QueueItem::new(1, 0, 5, 1);
    let other_node = QueueItem::new(2, 0, 5, 2);
    assert!(!same_place.precedes(&other_node));
    assert!(!other_node.precedes(&same_place));
    let cheaper = QueueItem::new(9, 5, 99, 99);
    assert!(cheaper.precedes(&first));
    assert!(!first.precedes(&cheaper));
    let mut frontier = PriorityQueue::new();
    frontier.push(second);
    frontier.push(first);
    assert_eq!(frontier.pop(), Some(first));
    assert_eq!(frontier.pop(), Some(second));
    frontier.push(first);
    frontier.push(second);
    frontier.clear();
    assert_eq!(frontier.len(), 0);
    assert_eq!(frontier.pop(), None);
    assert_eq!(first.cost, 100);
    assert_eq!(first.order_added, 0);
    assert_eq!(first.time_to_start, 40);
    assert_eq!(first.node_id, 7);
}

#[test]
fn a_table_holds_the_last_distance_recorded() {
    let mut table = DistanceTable::new();
    assert_eq!(table.distance(1, 2), None);
    assert!(table.row(1).is_none());
    table.record(1, 2, 30);
    table.record(1, 3, 40);
    table.record(2, 1, 50);
    assert_eq!(table.distance(1, 2), Some(30));
    assert_eq!(table.distance(2, 1), Some(50));
    assert_eq!(table.distance(3, 1), None);
    table.record(1, 2, 31);
    assert_eq!(table.distance(1, 2), Some(31));
    assert_eq!(table.row(1), Some(&HashMap::from([(2, 31), (3, 40)])));
}

#[test]
fn keys_and_members_come_out_once_each() {
    let map = HashMap::from([(3u64, 'a'), (1, 'b'), (2, 'c')]);
    let mut keys = map_keys(&map);
    keys.sort();
    assert_eq!(keys, vec![1, 2, 3]);
    let set = HashSet::from([9u64, 8, 7]);
    let mut members = set_members(&set);
    members.sort();
    assert_eq!(members, vec![7, 8, 9]);
    let mut into = HashSet::from([1u64, 9]);
    add_all(&mut into, &set);
    assert_eq!(into, HashSet::from([1, 7, 8, 9]));
    let mut kept = HashMap::from([(7u64, 'x'), (5, 'y'), (9, 'z')]);
    retain_keys(&mut kept, &set);
    assert_eq!(kept, HashMap::from([(7, 'x'), (9, 'z')]));
}
