//! The search itself: a best-first search that weighs every road by the
//! time it takes, and estimates what is left by the straight distance at
//! the highest speed.

use crate::data_handling::OSMData;
use crate::path_finding::nearest_road::{find_closest_road, spec_snap};
use crate::path_finding::path_laws::journey_exists_where_connected;
use crate::path_finding::queue_handling::{is_least, least_is_unique, PriorityQueue};
use crate::path_finding::search_laws::{frontier_is_numbered, search_always_ends};
use crate::path_finding::{
    outcome_view, PathResult, PathView, QueueItem, TransportMode, ROAD_DEFAULT_SPEED,
    ROAD_MAXIMUM_SPEED,
};
use crate::route_manager::{Route, RouteComponent, RouteError};
use crate::units::{add_capped, spec_add_capped, spec_travel_time, travel_time};
use crate::utils::distance_utilities::DistanceTable;
use std::collections::HashMap;
use vstd::multiset::*;
use vstd::prelude::*;
use vstd::std_specs::hash::*;

verus! {

broadcast use group_hash_axioms;

/// Speed on the road that arrives at `node`: the speed of the traveller on
/// foot or by bike, the speed limit at the node by car.
pub open spec fn spec_edge_speed(osm_data: &OSMData, mode: TransportMode, node: u64) -> u64 {
    match mode {
        TransportMode::Walk(speed) => speed,
        TransportMode::Bike(speed) => speed,
        TransportMode::Car => match osm_data.spec_node_max_speed(node) {
            Some(limit) => limit,
            None => ROAD_DEFAULT_SPEED,
        },
    }
}

/// The highest speed that the traveller can reach anywhere.
pub open spec fn spec_top_speed(mode: TransportMode) -> u64 {
    match mode {
        TransportMode::Walk(speed) => speed,
        TransportMode::Bike(speed) => speed,
        TransportMode::Car => ROAD_MAXIMUM_SPEED,
    }
}

pub fn edge_speed(osm_data: &OSMData, mode: &TransportMode, node: u64) -> (r: u64)
    ensures
        r == spec_edge_speed(osm_data, *mode, node),
{
    match mode {
        TransportMode::Walk(speed) => *speed,
        TransportMode::Bike(speed) => *speed,
        TransportMode::Car => match osm_data.node_max_speed(node) {
            Some(limit) => limit,
            None => ROAD_DEFAULT_SPEED,
        },
    }
}

pub fn top_speed(mode: &TransportMode) -> (r: u64)
    ensures
        r == spec_top_speed(*mode),
{
    match mode {
        TransportMode::Walk(speed) => *speed,
        TransportMode::Bike(speed) => *speed,
        TransportMode::Car => ROAD_MAXIMUM_SPEED,
    }
}

/// All that a search reads: who is next to whom, how far and how fast.
pub struct SearchContext {
    /// For every node of the graph, the nodes listed next to it.
    pub neighbours: Map<u64, Seq<u64>>,
    /// The measured distances, by pair of nodes.
    pub distances: Map<(u64, u64), u64>,
    /// For every node, the speed on a road that arrives at it.
    pub edge_speeds: Map<u64, u64>,
    pub top_speed: u64,
    pub start: u64,
    pub target: u64,
}

/// The context of a search on a graph.
pub open spec fn context(
    osm_data: &OSMData,
    start: u64,
    target: u64,
    mode: TransportMode,
    distances: Map<(u64, u64), u64>,
) -> SearchContext {
    SearchContext {
        neighbours: Map::new(
            |n: u64| osm_data.node_map@.contains_key(n),
            |n: u64| osm_data.node_map@[n].nodes@,
        ),
        distances,
        edge_speeds: Map::new(
            |n: u64| osm_data.node_map@.contains_key(n),
            |n: u64| spec_edge_speed(osm_data, mode, n),
        ),
        top_speed: spec_top_speed(mode),
        start,
        target,
    }
}

/// Where a search stands.
pub struct SearchState {
    /// The entries waiting to be expanded.
    pub frontier: Multiset<QueueItem>,
    /// The shortest time known from the start to each node reached.
    pub times: Map<u64, u64>,
    /// The node from which each node was reached in that time.
    pub parents: Map<u64, u64>,
    /// Number of entries inserted so far.
    pub inserted: usize,
    /// Whether the target was reached.
    pub found: bool,
}

impl SearchContext {
    /// The step from `parent` to `child` can be taken: the child is a node
    /// of the graph, the step was measured, and so was what is left from the
    /// child to the target.
    pub open spec fn passable(self, parent: u64, child: u64) -> bool {
        &&& self.neighbours.contains_key(child)
        &&& self.distances.contains_key((parent, child))
        &&& (child == self.target || self.distances.contains_key((child, self.target)))
    }

    /// Time from the start to `child` through `parent`, reached at `time`.
    pub open spec fn time_through(self, parent: u64, time: u64, child: u64) -> u64 {
        spec_add_capped(
            time,
            spec_travel_time(self.distances[(parent, child)], self.edge_speeds[child]),
        )
    }

    /// Estimated duration of the journey through `child`, reached at `time`.
    pub open spec fn estimate(self, child: u64, time: u64) -> u64 {
        spec_add_capped(
            time,
            spec_travel_time(self.distances[(child, self.target)], self.top_speed),
        )
    }

    /// The search before its first step: only the start is reached.
    pub open spec fn initial(self) -> SearchState {
        SearchState {
            frontier: Multiset::<QueueItem>::empty().insert(
                QueueItem { cost: 0, order_added: 0, time_to_start: 0, node_id: self.start },
            ),
            times: Map::<u64, u64>::empty().insert(self.start, 0),
            parents: Map::<u64, u64>::empty().insert(self.start, self.start),
            inserted: 1,
            found: false,
        }
    }

    /// Looks from `parent`, reached at `time`, at one node next to it. The
    /// node is taken up where it was not reached before, or is reached
    /// sooner now. Reaching the target ends the search at once. Each node
    /// taken up gets the next insertion number; once the numbers have run out
    /// no node is taken up any more.
    pub open spec fn relax(self, s: SearchState, parent: u64, time: u64, child: u64) -> SearchState {
        if !self.passable(parent, child) {
            s
        } else if s.times.contains_key(child) && s.times[child] <= self.time_through(
            parent,
            time,
            child,
        ) {
            s
        } else if child == self.target {
            SearchState {
                frontier: Multiset::empty(),
                parents: s.parents.insert(child, parent),
                found: true,
                ..s
            }
        } else if s.inserted == usize::MAX {
            s
        } else {
            let reached = self.time_through(parent, time, child);
            SearchState {
                frontier: s.frontier.insert(
                    QueueItem {
                        cost: self.estimate(child, reached),
                        order_added: s.inserted,
                        time_to_start: reached,
                        node_id: child,
                    },
                ),
                times: s.times.insert(child, reached),
                parents: s.parents.insert(child, parent),
                inserted: (s.inserted + 1) as usize,
                found: false,
            }
        }
    }

    /// Looks at the nodes `children[from..]` next to `parent`, in order.
    pub open spec fn expand(
        self,
        s: SearchState,
        parent: u64,
        time: u64,
        children: Seq<u64>,
        from: int,
    ) -> SearchState
        decreases children.len() - from,
    {
        if from < 0 || from >= children.len() || s.found {
            s
        } else {
            self.expand(self.relax(s, parent, time, children[from]), parent, time, children, from + 1)
        }
    }

    /// The entry is stale: its node was reached sooner since the entry was
    /// made.
    pub open spec fn stale(self, s: SearchState, item: QueueItem) -> bool {
        s.times.contains_key(item.node_id) && s.times[item.node_id] < item.time_to_start
    }

    /// One step of the search: the least entry leaves the frontier, and the
    /// nodes next to its node are looked at, unless the entry is stale.
    pub open spec fn step(self, s: SearchState) -> SearchState {
        if finished(s) {
            s
        } else {
            let item = choose|x: QueueItem| is_least(s.frontier, x);
            let rest = SearchState { frontier: s.frontier.remove(item), ..s };
            if self.stale(s, item) {
                rest
            } else if self.neighbours.contains_key(item.node_id) {
                self.expand(rest, item.node_id, item.time_to_start, self.neighbours[item.node_id], 0)
            } else {
                rest
            }
        }
    }

    /// The search after `n` steps.
    pub open spec fn run(self, n: nat) -> SearchState
        decreases n,
    {
        if n == 0 {
            self.initial()
        } else {
            self.step(self.run((n - 1) as nat))
        }
    }

    /// The search ends within `n` steps.
    pub open spec fn ends_within(self, n: nat) -> bool {
        finished(self.run(n))
    }

    /// The search where it has ended.
    pub open spec fn outcome(self) -> SearchState {
        self.run(choose|n: nat| self.ends_within(n))
    }
}

/// A search has ended where the target was reached or nothing waits.
pub open spec fn finished(s: SearchState) -> bool {
    s.found || s.frontier.len() == 0
}

/// A search that has ended stays as it is.
pub proof fn ended_search_stays(ctx: SearchContext, n: nat, m: nat)
    requires
        ctx.ends_within(n),
        n <= m,
    ensures
        ctx.run(m) == ctx.run(n),
    decreases m,
{
    if n < m {
        ended_search_stays(ctx, n, (m - 1) as nat);
    }
}

/// The way back from `child` to `start` along `parents`, in at most `fuel`
/// steps: the child first, the start last.
pub open spec fn ancestry(parents: Map<u64, u64>, start: u64, child: u64, fuel: nat) -> Option<
    Seq<u64>,
>
    decreases fuel,
{
    if child == start {
        Some(seq![start])
    } else if fuel == 0 || !parents.contains_key(child) {
        None
    } else {
        match ancestry(parents, start, parents[child], (fuel - 1) as nat) {
            Some(rest) => Some(seq![child] + rest),
            None => None,
        }
    }
}

/// Length and duration of the first `legs` steps of a path that runs from
/// the end of a journey back to its start, where every one of them was
/// measured. Each step is taken at the speed of the road that arrives at
/// its later node.
pub open spec fn route_measure(
    osm_data: &OSMData,
    mode: TransportMode,
    distances: Map<(u64, u64), u64>,
    path: Seq<u64>,
    legs: int,
) -> Option<(u64, u64)>
    decreases legs,
{
    if legs <= 0 {
        Some((0, 0))
    } else if legs >= path.len() || !distances.contains_key((path[legs], path[legs - 1])) {
        None
    } else {
        match route_measure(osm_data, mode, distances, path, legs - 1) {
            Some((length, time)) => {
                let leg = distances[(path[legs], path[legs - 1])];
                Some(
                    (
                        spec_add_capped(length, leg),
                        spec_add_capped(
                            time,
                            spec_travel_time(leg, spec_edge_speed(osm_data, mode, path[legs - 1])),
                        ),
                    ),
                )
            },
            None => None,
        }
    }
}

/// The journey that `parent_map` records from `start` to `target`.
pub open spec fn spec_process_found_path(
    osm_data: &OSMData,
    start: u64,
    target: u64,
    parents: Map<u64, u64>,
    mode: TransportMode,
    distances: Map<(u64, u64), u64>,
) -> Option<PathView> {
    match ancestry(parents, start, target, parents.dom().len()) {
        Some(path) => match route_measure(osm_data, mode, distances, path, path.len() - 1) {
            Some((length, time)) => Some(
                PathView {
                    start_node: start,
                    end_node: target,
                    found_path: path,
                    path_length: length,
                    path_time: time,
                },
            ),
            None => None,
        },
        None => None,
    }
}

/// What a search from `start` to `target` gives.
pub open spec fn spec_path_finding(
    osm_data: &OSMData,
    start: u64,
    target: u64,
    mode: TransportMode,
    distances: Map<(u64, u64), u64>,
) -> Option<PathView> {
    let ctx = context(osm_data, start, target, mode, distances);
    if ctx.outcome().found {
        spec_process_found_path(osm_data, start, target, ctx.outcome().parents, mode, distances)
    } else {
        None
    }
}

/// Follows `parent_map` from `target` back to `start`.
pub fn trace_path(parent_map: &HashMap<u64, u64>, start: u64, target: u64) -> (r: Option<Vec<u64>>)
    ensures
        match r {
            Some(path) => ancestry(parent_map@, start, target, parent_map@.dom().len()) == Some(
                path@,
            ),
            None => ancestry(parent_map@, start, target, parent_map@.dom().len()) is None,
        },
{
    let mut path: Vec<u64> = Vec::new();
    let mut child = target;
    let mut fuel = parent_map.len();
    let ghost whole = ancestry(parent_map@, start, target, parent_map@.dom().len());
    proof {
        assert(seq![child] =~= path@ + seq![child]);
    }
    while child != start
        invariant
            fuel <= parent_map@.dom().len(),
            whole == ancestry(parent_map@, start, target, parent_map@.dom().len()),
            whole == match ancestry(parent_map@, start, child, fuel as nat) {
                Some(rest) => Some(path@ + rest),
                None => None,
            },
        decreases fuel,
    {
        if fuel == 0 {
            return None;
        }
        match parent_map.get(&child) {
            None => {
                return None;
            },
            Some(parent) => {
                proof {
                    let before = path@;
                    match ancestry(parent_map@, start, *parent, (fuel - 1) as nat) {
                        Some(rest) => {
                            assert(before + (seq![child] + rest) =~= before.push(child) + rest);
                        },
                        None => {},
                    }
                }
                path.push(child);
                child = *parent;
                fuel = fuel - 1;
            },
        }
    }
    proof {
        assert(path@ + seq![start] =~= path@.push(start));
    }
    path.push(start);
    Some(path)
}

/// Adds up length and duration along a path that runs from the end of a
/// journey back to its start.
pub fn measure_path(
    osm_data: &OSMData,
    path: &Vec<u64>,
    transport_mode: &TransportMode,
    distances: &DistanceTable,
) -> (r: Option<(u64, u64)>)
    ensures
        r == route_measure(osm_data, *transport_mode, distances@, path@, path@.len() - 1),
{
    let mut length: u64 = 0;
    let mut time: u64 = 0;
    let mut i: usize = 1;
    if path.len() == 0 {
        return Some((0, 0));
    }
    while i < path.len()
        invariant
            1 <= i <= path@.len(),
            route_measure(osm_data, *transport_mode, distances@, path@, i - 1) == Some(
                (length, time),
            ),
        decreases path@.len() - i,
    {
        match distances.distance(path[i], path[i - 1]) {
            None => {
                proof {
                    missing_leg_spoils_measure(
                        osm_data,
                        *transport_mode,
                        distances@,
                        path@,
                        i as int,
                        path@.len() - 1,
                    );
                }
                return None;
            },
            Some(leg) => {
                let speed = edge_speed(osm_data, transport_mode, path[i - 1]);
                length = add_capped(length, leg);
                time = add_capped(time, travel_time(leg, speed));
            },
        }
        i += 1;
    }
    Some((length, time))
}

/// A path with a step that was not measured has no measure.
proof fn missing_leg_spoils_measure(
    osm_data: &OSMData,
    mode: TransportMode,
    distances: Map<(u64, u64), u64>,
    path: Seq<u64>,
    leg: int,
    legs: int,
)
    requires
        1 <= leg <= legs,
        leg < path.len(),
        !distances.contains_key((path[leg], path[leg - 1])),
    ensures
        route_measure(osm_data, mode, distances, path, legs) is None,
    decreases legs,
{
    if leg < legs {
        missing_leg_spoils_measure(osm_data, mode, distances, path, leg, legs - 1);
    }
}

/// Walks the parent pointers back from `target_node_id` to `start_node_id`
/// and adds up length and duration on the way. The path runs from the
/// target to the start. There is no journey where the pointers do not lead
/// to the start, or a step on the way was not measured.
pub fn process_found_path(
    osm_data: &OSMData,
    start_node_id: u64,
    target_node_id: u64,
    parent_map: &HashMap<u64, u64>,
    transport_mode: &TransportMode,
    distances: &DistanceTable,
) -> (r: Option<PathResult>)
    ensures
        outcome_view(r) == spec_process_found_path(
            osm_data,
            start_node_id,
            target_node_id,
            parent_map@,
            *transport_mode,
            distances@,
        ),
{
    match trace_path(parent_map, start_node_id, target_node_id) {
        None => None,
        Some(found_path) => match measure_path(osm_data, &found_path, transport_mode, distances) {
            None => None,
            Some((path_length, path_time)) => Some(
                PathResult {
                    start_node: start_node_id,
                    end_node: target_node_id,
                    found_path,
                    path_length,
                    path_time,
                },
            ),
        },
    }
}

/// Searches a journey from `start_node_id` to `target_node_id`, guided by
/// the time that each road takes and by the straight distance that is left.
///
/// The search takes the least entry of its frontier, looks at the nodes
/// next to it unless the entry is stale, and goes on until it reaches the
/// target or nothing is left. It ends the moment the target is reached, so
/// the journey is the first that it comes upon, not always the quickest.
/// A road is only taken where `distances` holds its length and the distance
/// from its far end to the target. The result is `None` where the search
/// ends without reaching the target. That is so wherever no path leads from
/// the start to the target over such roads, and nowhere else as long as the
/// insertion numbers last.
pub fn path_finding(
    osm_data: &OSMData,
    start_node_id: u64,
    target_node_id: u64,
    transport_mode: &TransportMode,
    distances: &DistanceTable,
) -> (r: Option<PathResult>)
    requires
        osm_data.node_map@.contains_key(start_node_id),
        osm_data.node_map@.contains_key(target_node_id),
        start_node_id != target_node_id,
    ensures
        outcome_view(r) == spec_path_finding(
            osm_data,
            start_node_id,
            target_node_id,
            *transport_mode,
            distances@,
        ),
        r is Some ==> context(
            osm_data,
            start_node_id,
            target_node_id,
            *transport_mode,
            distances@,
        ).connected(),
        context(osm_data, start_node_id, target_node_id, *transport_mode, distances@).connected()
            && context(
            osm_data,
            start_node_id,
            target_node_id,
            *transport_mode,
            distances@,
        ).outcome().inserted < usize::MAX ==> r is Some,
{
    proof {
        journey_exists_where_connected(
            osm_data,
            start_node_id,
            target_node_id,
            *transport_mode,
            distances@,
        );
    }
    let ghost ctx = context(
        osm_data,
        start_node_id,
        target_node_id,
        *transport_mode,
        distances@,
    );
    proof {
        assert(ctx.neighbours.dom() =~= osm_data.node_map@.dom());
        search_always_ends(ctx);
    }
    let ghost total: nat = choose|n: nat| ctx.ends_within(n);
    let mut frontier = PriorityQueue::new();
    let mut time_from_start: HashMap<u64, u64> = HashMap::new();
    let mut parent_map: HashMap<u64, u64> = HashMap::new();
    frontier.push(QueueItem::new(start_node_id, 0, 0, 0));
    let mut insertion_counter: usize = 1;
    parent_map.insert(start_node_id, start_node_id);
    time_from_start.insert(start_node_id, 0);
    let mut has_succeeded = false;
    let ghost mut steps: nat = 0;
    while !has_succeeded
        invariant
            frontier.wf(),
            ctx == context(osm_data, start_node_id, target_node_id, *transport_mode, distances@),
            ctx.ends_within(total),
            ctx.run(steps).frontier == frontier@,
            ctx.run(steps).times == time_from_start@,
            ctx.run(steps).parents == parent_map@,
            ctx.run(steps).inserted == insertion_counter,
            ctx.run(steps).found == has_succeeded,
        ensures
            finished(ctx.run(steps)),
            ctx.run(steps).parents == parent_map@,
            ctx.run(steps).found == has_succeeded,
        decreases total - steps,
    {
        let ghost before = ctx.run(steps);
        let popped = frontier.pop();
        match popped {
            None => {
                break ;
            },
            Some(item) => {
                proof {
                    if steps >= total {
                        ended_search_stays(ctx, total, steps);
                    }
                    let chosen = choose|x: QueueItem| is_least(before.frontier, x);
                    frontier_is_numbered(ctx, steps);
                    least_is_unique(before.frontier, item, chosen);
                }
                let ghost rest = SearchState { frontier: frontier@, ..before };
                let stale = match time_from_start.get(&item.node_id) {
                    Some(known) => *known < item.time_to_start,
                    None => false,
                };
                let expanded = if stale {
                    None
                } else {
                    osm_data.node_map.get(&item.node_id)
                };
                match expanded {
                    None => {},
                    Some(parent_node) => {
                        let ghost children = parent_node.nodes@;
                        let mut i: usize = 0;
                        while i < parent_node.nodes.len() && !has_succeeded
                            invariant
                                frontier.wf(),
                                i <= children.len(),
                                children == parent_node.nodes@,
                                ctx == context(
                                    osm_data,
                                    start_node_id,
                                    target_node_id,
                                    *transport_mode,
                                    distances@,
                                ),
                                ctx.expand(
                                    SearchState {
                                        frontier: frontier@,
                                        times: time_from_start@,
                                        parents: parent_map@,
                                        inserted: insertion_counter,
                                        found: has_succeeded,
                                    },
                                    item.node_id,
                                    item.time_to_start,
                                    children,
                                    i as int,
                                ) == ctx.expand(
                                    rest,
                                    item.node_id,
                                    item.time_to_start,
                                    children,
                                    0,
                                ),
                            decreases children.len() - i,
                        {
                            let child_id = parent_node.nodes[i];
                            let ghost now = SearchState {
                                frontier: frontier@,
                                times: time_from_start@,
                                parents: parent_map@,
                                inserted: insertion_counter,
                                found: has_succeeded,
                            };
                            if osm_data.node_map.get(&child_id).is_some() {
                                if let Some(leg) = distances.distance(item.node_id, child_id) {
                                    let speed = edge_speed(osm_data, transport_mode, child_id);
                                    let time_start_to_child = add_capped(
                                        item.time_to_start,
                                        travel_time(leg, speed),
                                    );
                                    let improves = match time_from_start.get(&child_id) {
                                        Some(known) => time_start_to_child < *known,
                                        None => true,
                                    };
                                    if improves {
                                        if child_id == target_node_id {
                                            parent_map.insert(child_id, item.node_id);
                                            frontier.clear();
                                            has_succeeded = true;
                                        } else if insertion_counter == usize::MAX {
                                        } else if let Some(left) = distances.distance(
                                            child_id,
                                            target_node_id,
                                        ) {
                                            parent_map.insert(child_id, item.node_id);
                                            time_from_start.insert(child_id, time_start_to_child);
                                            let overall_cost = add_capped(
                                                time_start_to_child,
                                                travel_time(left, top_speed(transport_mode)),
                                            );
                                            frontier.push(
                                                QueueItem::new(
                                                    child_id,
                                                    insertion_counter,
                                                    overall_cost,
                                                    time_start_to_child,
                                                ),
                                            );
                                            insertion_counter = insertion_counter + 1;
                                        }
                                    }
                                }
                            }
                            proof {
                                let after = SearchState {
                                    frontier: frontier@,
                                    times: time_from_start@,
                                    parents: parent_map@,
                                    inserted: insertion_counter,
                                    found: has_succeeded,
                                };
                                assert(after == ctx.relax(
                                    now,
                                    item.node_id,
                                    item.time_to_start,
                                    child_id,
                                ));
                            }
                            i += 1;
                        }
                    },
                }
                proof {
                    steps = steps + 1;
                }
            },
        }
    }
    proof {
        let chosen = choose|n: nat| ctx.ends_within(n);
        if steps <= chosen {
            ended_search_stays(ctx, steps, chosen);
        } else {
            ended_search_stays(ctx, chosen, steps);
        }
    }
    if has_succeeded {
        process_found_path(
            osm_data,
            start_node_id,
            target_node_id,
            &parent_map,
            transport_mode,
            distances,
        )
    } else {
        None
    }
}

impl PathResult {
    pub fn new(
        found_path: Vec<u64>,
        path_length: u64,
        path_time: u64,
        start_node: u64,
        end_node: u64,
    ) -> (r: Self)
        ensures
            r.start_node == start_node,
            r.end_node == end_node,
            r.found_path == found_path,
            r.path_length == path_length,
            r.path_time == path_time,
    {
        PathResult { start_node, end_node, found_path, path_length, path_time }
    }

    /// A copy of this result.
    pub fn duplicate(&self) -> (r: PathResult)
        ensures
            r@ == self@,
    {
        let mut found_path: Vec<u64> = Vec::new();
        let mut i: usize = 0;
        while i < self.found_path.len()
            invariant
                i <= self.found_path@.len(),
                found_path@ == self.found_path@.take(i as int),
            decreases self.found_path@.len() - i,
        {
            found_path.push(self.found_path[i]);
            proof {
                assert(found_path@ =~= self.found_path@.take(i + 1));
            }
            i += 1;
        }
        proof {
            assert(self.found_path@.take(self.found_path@.len() as int) =~= self.found_path@);
        }
        PathResult {
            start_node: self.start_node,
            end_node: self.end_node,
            found_path,
            path_length: self.path_length,
            path_time: self.path_time,
        }
    }
}

/// The journey that the search gives between two nodes; none from a node
/// to itself.
pub open spec fn spec_road_leg(
    osm_data: &OSMData,
    distances: Map<(u64, u64), u64>,
    mode: TransportMode,
    from: u64,
    to: u64,
) -> Option<PathView> {
    if from == to {
        None
    } else {
        spec_path_finding(osm_data, from, to, mode, distances)
    }
}

/// Searches a journey between two nodes of the graph. There is none from
/// a node to itself.
pub fn road_leg(
    osm_data: &OSMData,
    from: u64,
    to: u64,
    transport_mode: &TransportMode,
    distances: &DistanceTable,
) -> (r: Option<PathResult>)
    requires
        osm_data.node_map@.contains_key(from),
        osm_data.node_map@.contains_key(to),
    ensures
        outcome_view(r) == spec_road_leg(osm_data, distances@, *transport_mode, from, to),
{
    if from == to {
        None
    } else {
        path_finding(osm_data, from, to, transport_mode, distances)
    }
}

/// The direct journey between two nodes: the one that the search gives
/// between the road node nearest to the start and the road node nearest to
/// the target. There is none without a measured road near both, and none
/// where the two lie at the same road node or no road leads from the one to
/// the other.
pub open spec fn spec_direct_route(
    osm_data: &OSMData,
    mode: TransportMode,
    start: u64,
    target: u64,
    distances: Map<(u64, u64), u64>,
) -> Result<PathView, RouteError> {
    match (
        spec_snap(osm_data, distances, mode, start),
        spec_snap(osm_data, distances, mode, target),
    ) {
        (Some(from), Some(to)) => match spec_road_leg(
            osm_data,
            distances,
            mode,
            from.end_node,
            to.end_node,
        ) {
            Some(path) => Ok(path),
            None => Err(RouteError::NoPath),
        },
        _ => Err(RouteError::NoRoad),
    }
}

/// `route` is the direct journey between two nodes.
pub open spec fn is_direct_route(
    osm_data: &OSMData,
    mode: TransportMode,
    start: u64,
    target: u64,
    distances: Map<(u64, u64), u64>,
    route: Route,
) -> bool {
    &&& route.components@.len() == 1
    &&& route.components@[0] matches RouteComponent::Path(path)
    &&& spec_direct_route(osm_data, mode, start, target, distances) == Ok::<
        PathView,
        RouteError,
    >(path@)
}

/// Searches the journey over the road alone: from the road node nearest to
/// the start to the road node nearest to the target.
pub fn direct_route(
    osm_data: &OSMData,
    transport_mode: &TransportMode,
    _time: u64,
    starting_node_id: u64,
    target_node_id: u64,
    distances: &DistanceTable,
) -> (r: Result<Route, RouteError>)
    ensures
        match r {
            Ok(route) => is_direct_route(
                osm_data,
                *transport_mode,
                starting_node_id,
                target_node_id,
                distances@,
                route,
            ),
            Err(e) => spec_direct_route(
                osm_data,
                *transport_mode,
                starting_node_id,
                target_node_id,
                distances@,
            ) == Err::<PathView, RouteError>(e),
        },
{
    let start_to_start_road = match find_closest_road(
        osm_data,
        starting_node_id,
        transport_mode,
        distances,
    ) {
        Some(path) => path,
        None => {
            return Err(RouteError::NoRoad);
        },
    };
    let target_road_to_target = match find_closest_road(
        osm_data,
        target_node_id,
        transport_mode,
        distances,
    ) {
        Some(path) => path,
        None => {
            return Err(RouteError::NoRoad);
        },
    };
    let start_road_node = start_to_start_road.end_node;
    let target_road_node = target_road_to_target.end_node;
    match road_leg(osm_data, start_road_node, target_road_node, transport_mode, distances) {
        None => Err(RouteError::NoPath),
        Some(regular_path) => {
            let mut components: Vec<RouteComponent> = Vec::new();
            components.push(RouteComponent::Path(regular_path));
            Ok(Route::new(components))
        },
    }
}

} // verus!
