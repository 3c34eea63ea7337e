use crate::data_handling::{NodeSubset, OSMData};
use crate::decimal::{parse_unsigned_fixed, spec_parse_unsigned_fixed};
use crate::osm_parsing::{Node, Way};
use crate::data_handling::order_laws::rebuild_order_is_immaterial;
use crate::utils::collections::map_keys;
use std::collections::HashMap;
use vstd::prelude::*;
use vstd::std_specs::hash::*;
use vstd::string::StringSliceAdditionalSpecFns;
use vstd::utf8::encode_utf8;

verus! {

broadcast use group_hash_axioms;

/// The speed limit that the way `way_id` states, where there is such a way
/// and its limit reads as a number.
pub open spec fn way_speed(ways: Map<u64, Way>, way_id: u64) -> Option<u64> {
    if ways.contains_key(way_id) && ways[way_id].tags@.contains_key("maxspeed"@) {
        spec_parse_unsigned_fixed(encode_utf8(ways[way_id].tags@["maxspeed"@]))
    } else {
        None
    }
}

/// The first speed limit that the ways `memberships[from..]` state.
pub open spec fn first_speed(ways: Map<u64, Way>, memberships: Seq<u64>, from: int) -> Option<u64>
    decreases memberships.len() - from,
{
    if from < 0 || from >= memberships.len() {
        None
    } else {
        match way_speed(ways, memberships[from]) {
            Some(v) => Some(v),
            None => first_speed(ways, memberships, from + 1),
        }
    }
}

impl OSMData {
    /// A graph of these nodes, ways and subsets.
    pub fn new(
        node_map: HashMap<u64, Node>,
        way_map: HashMap<u64, Way>,
        node_subsets: Vec<NodeSubset>,
    ) -> (r: Self)
        ensures
            r.node_map == node_map,
            r.way_map == way_map,
            r.node_subsets == node_subsets,
    {
        OSMData { node_map, way_map, node_subsets }
    }

    /// The speed limit at a node: that of the first of its ways, in the
    /// order of its membership list, that states one.
    pub open spec fn spec_node_max_speed(&self, node_id: u64) -> Option<u64> {
        if self.node_map@.contains_key(node_id) {
            first_speed(self.way_map@, self.node_map@[node_id].ways@, 0)
        } else {
            None
        }
    }

    pub fn node_max_speed(&self, node_id: u64) -> (r: Option<u64>)
        ensures
            r == self.spec_node_max_speed(node_id),
    {
        if let Some(node) = self.node_map.get(&node_id) {
            let mut i: usize = 0;
            while i < node.ways.len()
                invariant
                    i <= node.ways@.len(),
                    self.node_map@.contains_key(node_id),
                    self.node_map@[node_id] == *node,
                    first_speed(self.way_map@, node.ways@, 0) == first_speed(
                        self.way_map@,
                        node.ways@,
                        i as int,
                    ),
                decreases node.ways@.len() - i,
            {
                if let Some(way) = self.way_map.get(&node.ways[i]) {
                    if let Some(max_speed) = way.tags.get("maxspeed") {
                        if let Some(limit) = parse_unsigned_fixed(max_speed.as_str()) {
                            return Some(limit);
                        }
                    }
                }
                i += 1;
            }
        }
        None
    }
}

/// What a way adds to the membership list of `node`: its own identifier,
/// once for each of the first `upto` places of the way that name the node.
pub open spec fn memberships_in(way: Seq<u64>, way_id: u64, node: u64, upto: int) -> Seq<u64>
    decreases upto,
{
    if upto <= 0 {
        Seq::empty()
    } else if way[upto - 1] == node {
        memberships_in(way, way_id, node, upto - 1).push(way_id)
    } else {
        memberships_in(way, way_id, node, upto - 1)
    }
}

/// What the first `upto` ways of `order` add to the membership list of
/// `node`.
pub open spec fn memberships(ways: Map<u64, Way>, order: Seq<u64>, node: u64, upto: int) -> Seq<u64>
    decreases upto,
{
    if upto <= 0 {
        Seq::empty()
    } else {
        memberships(ways, order, node, upto - 1) + memberships_in(
            ways[order[upto - 1]].node_ids@,
            order[upto - 1],
            node,
            ways[order[upto - 1]].node_ids@.len() as int,
        )
    }
}

/// What the first `upto` pairs of consecutive places of a way add to the
/// neighbour list of `node`: for each pair, the second node where the node
/// is the first, then the first node where it is the second.
pub open spec fn links_in(way: Seq<u64>, node: u64, upto: int) -> Seq<u64>
    decreases upto,
{
    if upto <= 0 {
        Seq::empty()
    } else {
        let before = links_in(way, node, upto - 1);
        let forth = if way[upto - 1] == node {
            before.push(way[upto])
        } else {
            before
        };
        if way[upto] == node {
            forth.push(way[upto - 1])
        } else {
            forth
        }
    }
}

/// What the first `upto` ways of `order` add to the neighbour list of
/// `node`.
pub open spec fn links(ways: Map<u64, Way>, order: Seq<u64>, node: u64, upto: int) -> Seq<u64>
    decreases upto,
{
    if upto <= 0 {
        Seq::empty()
    } else {
        links(ways, order, node, upto - 1) + links_in(
            ways[order[upto - 1]].node_ids@,
            node,
            ways[order[upto - 1]].node_ids@.len() - 1,
        )
    }
}

/// Two nodes are the same feature: identifier, position and tags agree.
pub open spec fn same_feature(a: Node, b: Node) -> bool {
    a.id == b.id && a.coordinate == b.coordinate && a.tags == b.tags
}

/// Empties the membership list and the neighbour list of every node.
fn clear_lists(node_map: &mut HashMap<u64, Node>)
    ensures
        final(node_map)@.dom() == old(node_map)@.dom(),
        forall|n: u64| #[trigger]
            final(node_map)@.contains_key(n) ==> same_feature(final(node_map)@[n], old(node_map)@[n])
                && final(node_map)@[n].nodes@.len() == 0 && final(node_map)@[n].ways@.len() == 0,
{
    let keys = map_keys(node_map);
    let mut k: usize = 0;
    while k < keys.len()
        invariant
            k <= keys@.len(),
            keys@.to_set() == old(node_map)@.dom(),
            node_map@.dom() == old(node_map)@.dom(),
            forall|n: u64| #[trigger]
                node_map@.contains_key(n) ==> same_feature(node_map@[n], old(node_map)@[n]),
            forall|i: int|
                0 <= i < k ==> (#[trigger] node_map@[keys@[i]]).ways@.len() == 0
                    && node_map@[keys@[i]].nodes@.len() == 0,
            forall|n: u64| #[trigger]
                node_map@.contains_key(n) ==> (node_map@[n].ways@.len() == 0
                    && node_map@[n].nodes@.len() == 0) || node_map@[n] == old(node_map)@[n],
        decreases keys@.len() - k,
    {
        let id = keys[k];
        let ghost before = node_map@;
        if let Some(mut node) = node_map.remove(&id) {
            node.ways = Vec::new();
            node.nodes = Vec::new();
            node_map.insert(id, node);
            assert(node_map@.dom() =~= before.dom());
        }
        k += 1;
    }
    proof {
        assert forall|n: u64| #[trigger] node_map@.contains_key(n) implies node_map@[n].ways@.len()
            == 0 && node_map@[n].nodes@.len() == 0 by {
            assert(keys@.to_set().contains(n));
            let i = choose|i: int| 0 <= i < keys@.len() && keys@[i] == n;
            assert(node_map@[keys@[i]].ways@.len() == 0);
        }
    }
}

/// Enters a way into the membership list of every node that it names.
fn enrol(node_map: &mut HashMap<u64, Node>, way_id: u64, node_ids: &Vec<u64>)
    ensures
        final(node_map)@.dom() == old(node_map)@.dom(),
        forall|n: u64| #[trigger]
            final(node_map)@.contains_key(n) ==> same_feature(final(node_map)@[n], old(node_map)@[n])
                && final(node_map)@[n].nodes == old(node_map)@[n].nodes && final(node_map)@[n].ways@
                == old(node_map)@[n].ways@ + memberships_in(
                node_ids@,
                way_id,
                n,
                node_ids@.len() as int,
            ),
{
    let mut j: usize = 0;
    while j < node_ids.len()
        invariant
            j <= node_ids@.len(),
            node_map@.dom() == old(node_map)@.dom(),
            forall|n: u64| #[trigger]
                node_map@.contains_key(n) ==> same_feature(node_map@[n], old(node_map)@[n])
                    && node_map@[n].nodes == old(node_map)@[n].nodes && node_map@[n].ways@ == old(node_map)@[n].ways@ + memberships_in(node_ids@, way_id, n, j as int),
        decreases node_ids@.len() - j,
    {
        let id = node_ids[j];
        let ghost before = node_map@;
        if let Some(mut node) = node_map.remove(&id) {
            node.ways.push(way_id);
            node_map.insert(id, node);
            assert(node_map@.dom() =~= before.dom());
        }
        proof {
            assert forall|n: u64| #[trigger] node_map@.contains_key(n) implies node_map@[n].ways@
                == old(node_map)@[n].ways@ + memberships_in(node_ids@, way_id, n, j + 1) by {
                assert(before.contains_key(n));
                if n == id {
                    assert(node_map@[n].ways@ =~= (old(node_map)@[n].ways@ + memberships_in(
                        node_ids@,
                        way_id,
                        n,
                        j as int,
                    )).push(way_id));
                    assert(node_map@[n].ways@ =~= old(node_map)@[n].ways@ + memberships_in(
                        node_ids@,
                        way_id,
                        n,
                        j + 1,
                    ));
                }
            }
        }
        j += 1;
    }
}

/// Adds `neighbour` to the neighbour list of the node `id`, if there is
/// such a node.
fn add_neighbour(node_map: &mut HashMap<u64, Node>, id: u64, neighbour: u64)
    ensures
        final(node_map)@.dom() == old(node_map)@.dom(),
        forall|n: u64| #[trigger]
            final(node_map)@.contains_key(n) ==> same_feature(final(node_map)@[n], old(node_map)@[n])
                && final(node_map)@[n].ways == old(node_map)@[n].ways && final(node_map)@[n].nodes@
                == (if n == id {
                old(node_map)@[n].nodes@.push(neighbour)
            } else {
                old(node_map)@[n].nodes@
            }),
{
    let ghost before = node_map@;
    if let Some(mut node) = node_map.remove(&id) {
        node.nodes.push(neighbour);
        node_map.insert(id, node);
        assert(node_map@.dom() =~= before.dom());
    }
}

/// Makes the nodes at consecutive places of a way neighbours of each
/// other.
fn link(node_map: &mut HashMap<u64, Node>, node_ids: &Vec<u64>)
    ensures
        final(node_map)@.dom() == old(node_map)@.dom(),
        forall|n: u64| #[trigger]
            final(node_map)@.contains_key(n) ==> same_feature(final(node_map)@[n], old(node_map)@[n])
                && final(node_map)@[n].ways == old(node_map)@[n].ways && final(node_map)@[n].nodes@
                == old(node_map)@[n].nodes@ + links_in(node_ids@, n, node_ids@.len() - 1),
{
    let mut j: usize = 1;
    proof {
        assert forall|n: u64| #[trigger] node_map@.contains_key(n) implies node_map@[n].nodes@
            =~= old(node_map)@[n].nodes@ + links_in(node_ids@, n, 0) by {}
    }
    if node_ids.len() == 0 {
        proof {
            assert forall|n: u64| #[trigger] node_map@.contains_key(n) implies node_map@[n].nodes@
                =~= old(node_map)@[n].nodes@ + links_in(node_ids@, n, node_ids@.len() - 1) by {}
        }
        return ;
    }
    while j < node_ids.len()
        invariant
            1 <= j <= node_ids@.len(),
            node_map@.dom() == old(node_map)@.dom(),
            forall|n: u64| #[trigger]
                node_map@.contains_key(n) ==> same_feature(node_map@[n], old(node_map)@[n])
                    && node_map@[n].ways == old(node_map)@[n].ways && node_map@[n].nodes@ == old(node_map)@[n].nodes@ + links_in(node_ids@, n, j - 1),
        decreases node_ids@.len() - j,
    {
        let left = node_ids[j - 1];
        let right = node_ids[j];
        let ghost before = node_map@;
        add_neighbour(node_map, left, right);
        let ghost between = node_map@;
        add_neighbour(node_map, right, left);
        proof {
            assert forall|n: u64| #[trigger] node_map@.contains_key(n) implies node_map@[n].nodes@
                == old(node_map)@[n].nodes@ + links_in(node_ids@, n, j as int) by {
                assert(before.contains_key(n));
                assert(between.contains_key(n));
                let base = old(node_map)@[n].nodes@;
                let so_far = links_in(node_ids@, n, j - 1);
                assert(before[n].nodes@ == base + so_far);
                let forth = if left == n {
                    so_far.push(right)
                } else {
                    so_far
                };
                assert(between[n].nodes@ =~= base + forth);
                let back = if right == n {
                    forth.push(left)
                } else {
                    forth
                };
                assert(node_map@[n].nodes@ =~= base + back);
                assert(links_in(node_ids@, n, j as int) == back);
            }
        }
        j += 1;
    }
}

/// The nodes at places `at` and `at + 1` of a way are in what the way adds
/// to each other's neighbour lists.
pub proof fn links_in_hold_each_pair(way: Seq<u64>, at: int, upto: int)
    requires
        0 <= at < upto,
        upto < way.len(),
    ensures
        links_in(way, way[at], upto).contains(way[at + 1]),
        links_in(way, way[at + 1], upto).contains(way[at]),
    decreases upto,
{
    let a = way[at];
    let b = way[at + 1];
    if at + 1 == upto {
        let before_a = links_in(way, a, upto - 1);
        let forth_a = before_a.push(b);
        assert(forth_a[forth_a.len() - 1] == b);
        let after_a = links_in(way, a, upto);
        if b == a {
            assert(after_a == forth_a.push(a));
            assert(after_a[after_a.len() - 1] == b);
        } else {
            assert(after_a == forth_a);
        }
        let after_b = links_in(way, b, upto);
        assert(after_b[after_b.len() - 1] == a);
    } else {
        links_in_hold_each_pair(way, at, upto - 1);
        let earlier_a = links_in(way, a, upto - 1);
        let i = choose|i: int| 0 <= i < earlier_a.len() && earlier_a[i] == b;
        assert(links_in(way, a, upto)[i] == b);
        let earlier_b = links_in(way, b, upto - 1);
        let k = choose|k: int| 0 <= k < earlier_b.len() && earlier_b[k] == a;
        assert(links_in(way, b, upto)[k] == a);
    }
}

/// What a way of `order` adds to a neighbour list is part of what all the
/// ways of `order` add.
pub proof fn links_hold_each_way(
    ways: Map<u64, Way>,
    order: Seq<u64>,
    node: u64,
    at: int,
    upto: int,
    neighbour: u64,
)
    requires
        0 <= at < upto <= order.len(),
        links_in(
            ways[order[at]].node_ids@,
            node,
            ways[order[at]].node_ids@.len() - 1,
        ).contains(neighbour),
    ensures
        links(ways, order, node, upto).contains(neighbour),
    decreases upto,
{
    let whole = links(ways, order, node, upto);
    let earlier = links(ways, order, node, upto - 1);
    let last = links_in(
        ways[order[upto - 1]].node_ids@,
        node,
        ways[order[upto - 1]].node_ids@.len() - 1,
    );
    assert(whole == earlier + last);
    if at + 1 == upto {
        let i = choose|i: int| 0 <= i < last.len() && last[i] == neighbour;
        assert(whole[earlier.len() + i] == neighbour);
    } else {
        links_hold_each_way(ways, order, node, at, upto - 1, neighbour);
        let i = choose|i: int| 0 <= i < earlier.len() && earlier[i] == neighbour;
        assert(whole[i] == neighbour);
    }
}

impl OSMData {
    /// Rebuilds what the nodes know of the ways, from the ways alone. Every
    /// membership list and every neighbour list is emptied. Then each way
    /// enters itself with every node that it names, and the nodes at
    /// consecutive places of each way become neighbours of each other, in both
    /// directions and without looking for duplicates. References to nodes that
    /// the graph does not hold are passed over. The ways are gone through in
    /// one order, whichever the map gives; another order would give the same
    /// lists but for the order within them.
    pub fn update_road_nodes(&mut self)
        ensures
            final(self).way_map == old(self).way_map,
            final(self).node_subsets == old(self).node_subsets,
            final(self).node_map@.dom() == old(self).node_map@.dom(),
            exists|order: Seq<u64>|
                {
                    &&& order.no_duplicates()
                    &&& order.to_set() == old(self).way_map@.dom()
                    &&& forall|n: u64| #[trigger]
                        final(self).node_map@.contains_key(n) ==> {
                            &&& same_feature(final(self).node_map@[n], old(self).node_map@[n])
                            &&& final(self).node_map@[n].ways@ == memberships(
                                old(self).way_map@,
                                order,
                                n,
                                order.len() as int,
                            )
                            &&& final(self).node_map@[n].nodes@ == links(
                                old(self).way_map@,
                                order,
                                n,
                                order.len() as int,
                            )
                        }
                },
            forall|n: u64, other: Seq<u64>|
                #![trigger links(final(self).way_map@, other, n, other.len() as int)]
                final(self).node_map@.contains_key(n) && other.no_duplicates() && other.to_set()
                    == final(self).way_map@.dom() ==> final(self).node_map@[n].nodes@.to_multiset()
                    == links(final(self).way_map@, other, n, other.len() as int).to_multiset(),
            forall|n: u64, other: Seq<u64>|
                #![trigger memberships(final(self).way_map@, other, n, other.len() as int)]
                final(self).node_map@.contains_key(n) && other.no_duplicates() && other.to_set()
                    == final(self).way_map@.dom() ==> final(self).node_map@[n].ways@.to_multiset()
                    == memberships(
                    final(self).way_map@,
                    other,
                    n,
                    other.len() as int,
                ).to_multiset(),
            forall|w: u64, i: int|
                #![trigger final(self).way_map@[w].node_ids@[i]]
                final(self).way_map@.contains_key(w) && 0 <= i && i + 1 < final(self).way_map@[w].node_ids@.len() ==> {
                    let a = final(self).way_map@[w].node_ids@[i];
                    let b = final(self).way_map@[w].node_ids@[i + 1];
                    &&& final(self).node_map@.contains_key(a) ==> final(self).node_map@[a].nodes@.contains(b)
                    &&& final(self).node_map@.contains_key(b) ==> final(self).node_map@[b].nodes@.contains(a)
                },
    {
        clear_lists(&mut self.node_map);
        let order = map_keys(&self.way_map);
        let ghost ways = self.way_map@;
        let mut k: usize = 0;
        proof {
            assert forall|n: u64| #[trigger] self.node_map@.contains_key(n) implies self.node_map@[n].ways@
                =~= memberships(ways, order@, n, 0) by {}
        }
        while k < order.len()
            invariant
                k <= order@.len(),
                ways == self.way_map@,
                self.way_map == old(self).way_map,
                self.node_subsets == old(self).node_subsets,
                order@.to_set() == ways.dom(),
                self.node_map@.dom() == old(self).node_map@.dom(),
                forall|n: u64| #[trigger]
                    self.node_map@.contains_key(n) ==> same_feature(
                        self.node_map@[n],
                        old(self).node_map@[n],
                    ) && self.node_map@[n].nodes@.len() == 0 && self.node_map@[n].ways@
                        == memberships(ways, order@, n, k as int),
            decreases order@.len() - k,
        {
            let way_id = order[k];
            proof {
                assert(order@.to_set().contains(way_id));
            }
            if let Some(way) = self.way_map.get(&way_id) {
                enrol(&mut self.node_map, way_id, &way.node_ids);
            }
            k += 1;
        }
        let mut k: usize = 0;
        proof {
            assert forall|n: u64| #[trigger] self.node_map@.contains_key(n) implies self.node_map@[n].nodes@
                =~= links(ways, order@, n, 0) by {}
        }
        while k < order.len()
            invariant
                k <= order@.len(),
                ways == self.way_map@,
                self.way_map == old(self).way_map,
                self.node_subsets == old(self).node_subsets,
                order@.to_set() == ways.dom(),
                self.node_map@.dom() == old(self).node_map@.dom(),
                forall|n: u64| #[trigger]
                    self.node_map@.contains_key(n) ==> same_feature(
                        self.node_map@[n],
                        old(self).node_map@[n],
                    ) && self.node_map@[n].ways@ == memberships(ways, order@, n, order@.len() as int)
                        && self.node_map@[n].nodes@ == links(ways, order@, n, k as int),
            decreases order@.len() - k,
        {
            let way_id = order[k];
            proof {
                assert(order@.to_set().contains(way_id));
            }
            let ghost before = self.node_map@;
            if let Some(way) = self.way_map.get(&way_id) {
                link(&mut self.node_map, &way.node_ids);
            }
            proof {
                assert forall|n: u64| #[trigger] self.node_map@.contains_key(n) implies self.node_map@[n].nodes@
                    == links(ways, order@, n, k + 1) by {
                    assert(before.contains_key(n));
                }
            }
            k += 1;
        }
        proof {
            let order = order@;
            assert forall|n: u64, other: Seq<u64>|
                #![trigger links(self.way_map@, other, n, other.len() as int)]
                self.node_map@.contains_key(n) && other.no_duplicates() && other.to_set()
                    == self.way_map@.dom() implies self.node_map@[n].nodes@.to_multiset() == links(
                self.way_map@,
                other,
                n,
                other.len() as int,
            ).to_multiset() by {
                rebuild_order_is_immaterial(ways, order, other, n);
            }
            assert forall|n: u64, other: Seq<u64>|
                #![trigger memberships(self.way_map@, other, n, other.len() as int)]
                self.node_map@.contains_key(n) && other.no_duplicates() && other.to_set()
                    == self.way_map@.dom() implies self.node_map@[n].ways@.to_multiset()
                == memberships(self.way_map@, other, n, other.len() as int).to_multiset() by {
                rebuild_order_is_immaterial(ways, order, other, n);
            }
            assert forall|w: u64, i: int|
                #![trigger self.way_map@[w].node_ids@[i]]
                self.way_map@.contains_key(w) && 0 <= i && i + 1
                    < self.way_map@[w].node_ids@.len() implies {
                let a = self.way_map@[w].node_ids@[i];
                let b = self.way_map@[w].node_ids@[i + 1];
                &&& self.node_map@.contains_key(a) ==> self.node_map@[a].nodes@.contains(b)
                &&& self.node_map@.contains_key(b) ==> self.node_map@[b].nodes@.contains(a)
            } by {
                let way = ways[w].node_ids@;
                let a = way[i];
                let b = way[i + 1];
                assert(order.to_set().contains(w));
                let at = choose|at: int| 0 <= at < order.len() && order[at] == w;
                links_in_hold_each_pair(way, i, way.len() - 1);
                links_hold_each_way(ways, order, a, at, order.len() as int, b);
                links_hold_each_way(ways, order, b, at, order.len() as int, a);
            }
        }
    }
}

} // verus!
