//! Pruning the graph to what a list of filter rules selects.

use crate::data_handling::data_handling::{links, memberships, same_feature};
use crate::data_handling::{FilterSet, FilterSubset, NodeSubset, OSMData};
use crate::osm_parsing::{Node, Way};
use crate::tags::Tags;
use crate::text::same_text;
use crate::utils::collections::{add_all, map_keys, retain_keys};
use std::collections::{HashMap, HashSet};
use vstd::prelude::*;
use vstd::std_specs::hash::*;

verus! {

broadcast use group_hash_axioms;

impl FilterSubset {
    /// A copy of this category.
    pub fn duplicate(&self) -> (r: FilterSubset)
        ensures
            r == *self,
    {
        match self {
            FilterSubset::Roads => FilterSubset::Roads,
            FilterSubset::Landmark(name) => FilterSubset::Landmark(name.clone()),
            FilterSubset::AllLandmarks => FilterSubset::AllLandmarks,
        }
    }
}

impl Default for FilterSubset {
    fn default() -> (r: FilterSubset)
        ensures
            r == FilterSubset::AllLandmarks,
    {
        FilterSubset::AllLandmarks
    }
}

impl Default for FilterSet {
    /// The rule without key or values that selects every free-standing
    /// point feature.
    fn default() -> (r: FilterSet)
        ensures
            r.filter_key@ == Seq::<char>::empty(),
            r.filter_values@.len() == 0,
            r.filter_subset == FilterSubset::AllLandmarks,
    {
        FilterSet {
            filter_key: String::new(),
            filter_values: Vec::new(),
            filter_subset: FilterSubset::AllLandmarks,
        }
    }
}

impl NodeSubset {
    pub fn new(nodes_filtered: HashSet<u64>, filter_subset: FilterSubset) -> (r: Self)
        ensures
            r.filter_subset == filter_subset,
            r.node_subset == nodes_filtered,
    {
        NodeSubset { filter_subset, node_subset: nodes_filtered }
    }
}

/// `value` is among the values that the rule accepts.
pub open spec fn accepts(rule: &FilterSet, value: Seq<char>) -> bool {
    exists|i: int| 0 <= i < rule.filter_values@.len() && (#[trigger] rule.filter_values@[i])@ == value
}

/// The tags hold the key of the rule with one of the accepted values.
pub open spec fn tags_match(tags: Map<Seq<char>, Seq<char>>, rule: &FilterSet) -> bool {
    tags.contains_key(rule.filter_key@) && accepts(rule, tags[rule.filter_key@])
}

/// Some way names the node.
pub open spec fn on_a_way(ways: Map<u64, Way>, node: u64) -> bool {
    exists|w: u64| #[trigger] ways.contains_key(w) && ways[w].node_ids@.contains(node)
}

/// The ways that a rule selects: for roads the ways whose tags match, for
/// landmarks none.
pub open spec fn matched_ways(ways: Map<u64, Way>, rule: &FilterSet) -> Set<u64> {
    match rule.filter_subset {
        FilterSubset::Roads => Set::new(
            |w: u64| ways.contains_key(w) && tags_match(ways[w].tags@, rule),
        ),
        _ => Set::empty(),
    }
}

/// The nodes that a rule selects: for roads every node that a selected way
/// names, for a landmark category the nodes whose tags match, and for all
/// landmarks the nodes with a tag that no way names.
pub open spec fn matched_nodes(
    nodes: Map<u64, Node>,
    ways: Map<u64, Way>,
    rule: &FilterSet,
) -> Set<u64> {
    match rule.filter_subset {
        FilterSubset::Roads => Set::new(
            |n: u64|
                exists|w: u64|
                    #[trigger] ways.contains_key(w) && tags_match(ways[w].tags@, rule)
                        && ways[w].node_ids@.contains(n),
        ),
        FilterSubset::Landmark(_) => Set::new(
            |n: u64| nodes.contains_key(n) && tags_match(nodes[n].tags@, rule),
        ),
        FilterSubset::AllLandmarks => Set::new(
            |n: u64| nodes.contains_key(n) && nodes[n].tags@.dom().len() > 0 && !on_a_way(ways, n),
        ),
    }
}

/// The nodes that at least one of the rules selects.
pub open spec fn kept_nodes(
    nodes: Map<u64, Node>,
    ways: Map<u64, Way>,
    rules: Seq<FilterSet>,
) -> Set<u64> {
    Set::new(
        |n: u64|
            exists|i: int|
                0 <= i < rules.len() && matched_nodes(nodes, ways, #[trigger] &rules[i]).contains(n),
    )
}

/// The ways that at least one of the rules selects.
pub open spec fn kept_ways(ways: Map<u64, Way>, rules: Seq<FilterSet>) -> Set<u64> {
    Set::new(
        |w: u64|
            exists|i: int| 0 <= i < rules.len() && matched_ways(ways, #[trigger] &rules[i]).contains(w),
    )
}

/// Filtering only ever adds to what is kept: what the first rules of a
/// list keep, the whole list keeps.
pub proof fn more_rules_keep_more(
    nodes: Map<u64, Node>,
    ways: Map<u64, Way>,
    rules: Seq<FilterSet>,
    first: int,
)
    requires
        0 <= first <= rules.len(),
    ensures
        kept_nodes(nodes, ways, rules.take(first)).subset_of(kept_nodes(nodes, ways, rules)),
        kept_ways(ways, rules.take(first)).subset_of(kept_ways(ways, rules)),
{
    let earlier = rules.take(first);
    assert forall|n: u64| kept_nodes(nodes, ways, earlier).contains(n) implies kept_nodes(
        nodes,
        ways,
        rules,
    ).contains(n) by {
        let i = choose|i: int|
            0 <= i < earlier.len() && matched_nodes(nodes, ways, #[trigger] &earlier[i]).contains(n);
        assert(earlier[i] == rules[i]);
    }
    assert forall|w: u64| kept_ways(ways, earlier).contains(w) implies kept_ways(
        ways,
        rules,
    ).contains(w) by {
        let i = choose|i: int|
            0 <= i < earlier.len() && matched_ways(ways, #[trigger] &earlier[i]).contains(w);
        assert(earlier[i] == rules[i]);
    }
}

/// Tells whether `value` is among the values that the rule accepts.
fn rule_accepts(rule: &FilterSet, value: &str) -> (r: bool)
    ensures
        r == accepts(rule, value@),
{
    let mut i: usize = 0;
    while i < rule.filter_values.len()
        invariant
            i <= rule.filter_values@.len(),
            forall|j: int| 0 <= j < i ==> (#[trigger] rule.filter_values@[j])@ != value@,
        decreases rule.filter_values@.len() - i,
    {
        if same_text(rule.filter_values[i].as_str(), value) {
            return true;
        }
        i += 1;
    }
    false
}

/// Tells whether the tags hold the key of the rule with an accepted value.
fn rule_matches(tags: &Tags, rule: &FilterSet) -> (r: bool)
    ensures
        r == tags_match(tags@, rule),
{
    match tags.get(rule.filter_key.as_str()) {
        Some(value) => rule_accepts(rule, value.as_str()),
        None => false,
    }
}

/// Adds every entry of `ids` to `into`.
fn add_each(into: &mut HashSet<u64>, ids: &Vec<u64>)
    ensures
        final(into)@ == old(into)@.union(ids@.to_set()),
{
    let mut i: usize = 0;
    while i < ids.len()
        invariant
            i <= ids@.len(),
            forall|n: u64|
                into@.contains(n) <==> old(into)@.contains(n) || exists|j: int|
                    0 <= j < i && ids@[j] == n,
        decreases ids@.len() - i,
    {
        into.insert(ids[i]);
        i += 1;
    }
    assert(into@ =~= old(into)@.union(ids@.to_set()));
}

impl OSMData {
    /// Selects the nodes whose tags hold the key of the rule with an
    /// accepted value. No way is selected.
    pub fn filter_landmarks(&self, filter: &FilterSet) -> (r: (HashSet<u64>, HashSet<u64>))
        ensures
            r.0@ == Set::new(
                |n: u64| self.node_map@.contains_key(n) && tags_match(self.node_map@[n].tags@, filter),
            ),
            r.1@ == Set::<u64>::empty(),
    {
        let mut nodes_to_keep: HashSet<u64> = HashSet::new();
        let ways_to_keep: HashSet<u64> = HashSet::new();
        let keys = map_keys(&self.node_map);
        let mut k: usize = 0;
        while k < keys.len()
            invariant
                k <= keys@.len(),
                keys@.to_set() == self.node_map@.dom(),
                forall|n: u64|
                    nodes_to_keep@.contains(n) <==> self.node_map@.contains_key(n) && tags_match(
                        self.node_map@[n].tags@,
                        filter,
                    ) && exists|j: int| 0 <= j < k && keys@[j] == n,
            decreases keys@.len() - k,
        {
            let node_id = keys[k];
            proof {
                assert(keys@.to_set().contains(node_id));
            }
            if let Some(node) = self.node_map.get(&node_id) {
                if rule_matches(&node.tags, filter) {
                    nodes_to_keep.insert(node_id);
                }
            }
            k += 1;
        }
        proof {
            let wanted = Set::new(
                |n: u64| self.node_map@.contains_key(n) && tags_match(self.node_map@[n].tags@, filter),
            );
            assert forall|n: u64| nodes_to_keep@.contains(n) <==> wanted.contains(n) by {
                if wanted.contains(n) {
                    assert(keys@.to_set().contains(n));
                }
            }
            assert(nodes_to_keep@ =~= wanted);
        }
        (nodes_to_keep, ways_to_keep)
    }

    /// The nodes that some way names.
    fn nodes_on_ways(&self) -> (r: HashSet<u64>)
        ensures
            forall|n: u64| r@.contains(n) <==> on_a_way(self.way_map@, n),
    {
        let mut nodes_in_ways: HashSet<u64> = HashSet::new();
        let keys = map_keys(&self.way_map);
        let mut k: usize = 0;
        while k < keys.len()
            invariant
                k <= keys@.len(),
                keys@.to_set() == self.way_map@.dom(),
                forall|n: u64|
                    nodes_in_ways@.contains(n) <==> exists|j: int|
                        0 <= j < k && (#[trigger] self.way_map@[keys@[j]]).node_ids@.contains(n),
            decreases keys@.len() - k,
        {
            let way_id = keys[k];
            proof {
                assert(keys@.to_set().contains(way_id));
            }
            if let Some(way) = self.way_map.get(&way_id) {
                add_each(&mut nodes_in_ways, &way.node_ids);
            }
            k += 1;
        }
        proof {
            assert forall|n: u64| nodes_in_ways@.contains(n) <==> on_a_way(self.way_map@, n) by {
                if nodes_in_ways@.contains(n) {
                    let j = choose|j: int|
                        0 <= j < k && (#[trigger] self.way_map@[keys@[j]]).node_ids@.contains(n);
                    assert(keys@.to_set().contains(keys@[j]));
                    assert(self.way_map@.contains_key(keys@[j]));
                }
                if on_a_way(self.way_map@, n) {
                    let w = choose|w: u64| #[trigger]
                        self.way_map@.contains_key(w) && self.way_map@[w].node_ids@.contains(n);
                    assert(keys@.to_set().contains(w));
                    let j = choose|j: int| 0 <= j < keys@.len() && keys@[j] == w;
                    assert(self.way_map@[keys@[j]].node_ids@.contains(n));
                }
            }
        }
        nodes_in_ways
    }

    /// Selects the free-standing point features: the nodes that carry a tag
    /// and that no way names. No way is selected.
    pub fn filter_all_landmarks(&self, _filter: &FilterSet) -> (r: (HashSet<u64>, HashSet<u64>))
        ensures
            r.0@ == Set::new(
                |n: u64|
                    self.node_map@.contains_key(n) && self.node_map@[n].tags@.dom().len() > 0
                        && !on_a_way(self.way_map@, n),
            ),
            r.1@ == Set::<u64>::empty(),
    {
        let mut nodes_to_keep: HashSet<u64> = HashSet::new();
        let ways_to_keep: HashSet<u64> = HashSet::new();
        let nodes_in_ways = self.nodes_on_ways();
        let keys = map_keys(&self.node_map);
        let mut k: usize = 0;
        while k < keys.len()
            invariant
                k <= keys@.len(),
                keys@.to_set() == self.node_map@.dom(),
                forall|n: u64| nodes_in_ways@.contains(n) <==> on_a_way(self.way_map@, n),
                forall|n: u64|
                    nodes_to_keep@.contains(n) <==> self.node_map@.contains_key(n)
                        && self.node_map@[n].tags@.dom().len() > 0 && !on_a_way(self.way_map@, n)
                        && exists|j: int| 0 <= j < k && keys@[j] == n,
            decreases keys@.len() - k,
        {
            let node_id = keys[k];
            proof {
                assert(keys@.to_set().contains(node_id));
            }
            if let Some(node) = self.node_map.get(&node_id) {
                if !node.tags.is_empty() && !nodes_in_ways.contains(&node_id) {
                    nodes_to_keep.insert(node_id);
                }
            }
            k += 1;
        }
        proof {
            let wanted = Set::new(
                |n: u64|
                    self.node_map@.contains_key(n) && self.node_map@[n].tags@.dom().len() > 0
                        && !on_a_way(self.way_map@, n),
            );
            assert forall|n: u64| nodes_to_keep@.contains(n) <==> wanted.contains(n) by {
                if wanted.contains(n) {
                    assert(keys@.to_set().contains(n));
                }
            }
            assert(nodes_to_keep@ =~= wanted);
        }
        (nodes_to_keep, ways_to_keep)
    }

    /// Selects the ways whose tags hold the key of the rule with an accepted
    /// value, and every node that one of them names.
    pub fn filter_ways(&self, filter: &FilterSet) -> (r: (HashSet<u64>, HashSet<u64>))
        ensures
            r.0@ == Set::new(
                |n: u64|
                    exists|w: u64|
                        #[trigger] self.way_map@.contains_key(w) && tags_match(
                            self.way_map@[w].tags@,
                            filter,
                        ) && self.way_map@[w].node_ids@.contains(n),
            ),
            r.1@ == Set::new(
                |w: u64| self.way_map@.contains_key(w) && tags_match(self.way_map@[w].tags@, filter),
            ),
    {
        let mut ways_to_keep: HashSet<u64> = HashSet::new();
        let mut nodes_to_keep: HashSet<u64> = HashSet::new();
        let keys = map_keys(&self.way_map);
        let mut k: usize = 0;
        while k < keys.len()
            invariant
                k <= keys@.len(),
                keys@.to_set() == self.way_map@.dom(),
                forall|w: u64|
                    ways_to_keep@.contains(w) <==> self.way_map@.contains_key(w) && tags_match(
                        self.way_map@[w].tags@,
                        filter,
                    ) && exists|j: int| 0 <= j < k && keys@[j] == w,
                forall|n: u64|
                    nodes_to_keep@.contains(n) <==> exists|j: int|
                        0 <= j < k && tags_match((#[trigger] self.way_map@[keys@[j]]).tags@, filter)
                            && self.way_map@[keys@[j]].node_ids@.contains(n),
            decreases keys@.len() - k,
        {
            let way_id = keys[k];
            proof {
                assert(keys@.to_set().contains(way_id));
            }
            if let Some(way) = self.way_map.get(&way_id) {
                if rule_matches(&way.tags, filter) {
                    ways_to_keep.insert(way_id);
                    add_each(&mut nodes_to_keep, &way.node_ids);
                }
            }
            k += 1;
        }
        proof {
            let wanted_ways = Set::new(
                |w: u64| self.way_map@.contains_key(w) && tags_match(self.way_map@[w].tags@, filter),
            );
            assert forall|w: u64| ways_to_keep@.contains(w) <==> wanted_ways.contains(w) by {
                if wanted_ways.contains(w) {
                    assert(keys@.to_set().contains(w));
                }
            }
            assert(ways_to_keep@ =~= wanted_ways);
            let wanted_nodes = Set::new(
                |n: u64|
                    exists|w: u64|
                        #[trigger] self.way_map@.contains_key(w) && tags_match(
                            self.way_map@[w].tags@,
                            filter,
                        ) && self.way_map@[w].node_ids@.contains(n),
            );
            assert forall|n: u64| nodes_to_keep@.contains(n) <==> wanted_nodes.contains(n) by {
                if nodes_to_keep@.contains(n) {
                    let j = choose|j: int|
                        0 <= j < k && tags_match((#[trigger] self.way_map@[keys@[j]]).tags@, filter)
                            && self.way_map@[keys@[j]].node_ids@.contains(n);
                    assert(keys@.to_set().contains(keys@[j]));
                    assert(self.way_map@.contains_key(keys@[j]));
                }
                if wanted_nodes.contains(n) {
                    let w = choose|w: u64|
                        #[trigger] self.way_map@.contains_key(w) && tags_match(
                            self.way_map@[w].tags@,
                            filter,
                        ) && self.way_map@[w].node_ids@.contains(n);
                    assert(keys@.to_set().contains(w));
                    let j = choose|j: int| 0 <= j < keys@.len() && keys@[j] == w;
                    assert(tags_match(self.way_map@[keys@[j]].tags@, filter));
                }
            }
            assert(nodes_to_keep@ =~= wanted_nodes);
        }
        (nodes_to_keep, ways_to_keep)
    }

    /// Selects what one rule selects.
    pub fn apply_rule(&self, filter: &FilterSet) -> (r: (HashSet<u64>, HashSet<u64>))
        ensures
            r.0@ == matched_nodes(self.node_map@, self.way_map@, filter),
            r.1@ == matched_ways(self.way_map@, filter),
    {
        match filter.filter_subset {
            FilterSubset::AllLandmarks => self.filter_all_landmarks(filter),
            FilterSubset::Landmark(_) => self.filter_landmarks(filter),
            FilterSubset::Roads => self.filter_ways(filter),
        }
    }

    /// Prunes the graph to what the rules select. Each rule is applied to
    /// the graph as it came in and leaves one subset with the nodes that it
    /// selected. A node or a way stays where at least one rule selected it,
    /// and is deleted otherwise. What stays is linked anew.
    pub fn filter(&mut self, filters: Vec<FilterSet>)
        ensures
            final(self).node_map@.dom() == old(self).node_map@.dom().intersect(
                kept_nodes(old(self).node_map@, old(self).way_map@, filters@),
            ),
            final(self).way_map@ == old(self).way_map@.restrict(
                kept_ways(old(self).way_map@, filters@),
            ),
            final(self).node_subsets@.len() == old(self).node_subsets@.len() + filters@.len(),
            forall|i: int|
                0 <= i < old(self).node_subsets@.len() ==> final(self).node_subsets@[i] == old(self).node_subsets@[i],
            forall|i: int|
                #![trigger filters@[i]]
                0 <= i < filters@.len() ==> {
                    let subset = final(self).node_subsets@[old(self).node_subsets@.len() + i];
                    &&& subset.filter_subset == filters@[i].filter_subset
                    &&& subset.node_subset@ == matched_nodes(
                        old(self).node_map@,
                        old(self).way_map@,
                        &filters@[i],
                    )
                },
            exists|order: Seq<u64>|
                {
                    &&& order.no_duplicates()
                    &&& order.to_set() == final(self).way_map@.dom()
                    &&& forall|n: u64| #[trigger]
                        final(self).node_map@.contains_key(n) ==> {
                            &&& same_feature(final(self).node_map@[n], old(self).node_map@[n])
                            &&& final(self).node_map@[n].ways@ == memberships(
                                final(self).way_map@,
                                order,
                                n,
                                order.len() as int,
                            )
                            &&& final(self).node_map@[n].nodes@ == links(
                                final(self).way_map@,
                                order,
                                n,
                                order.len() as int,
                            )
                        }
                },
            forall|n: u64, other: Seq<u64>|
                #![trigger links(final(self).way_map@, other, n, other.len() as int)]
                final(self).node_map@.contains_key(n) && other.no_duplicates() && other.to_set()
                    == final(self).way_map@.dom() ==> final(self).node_map@[n].nodes@.to_multiset()
                    == links(final(self).way_map@, other, n, other.len() as int).to_multiset(),
            forall|n: u64, other: Seq<u64>|
                #![trigger memberships(final(self).way_map@, other, n, other.len() as int)]
                final(self).node_map@.contains_key(n) && other.no_duplicates() && other.to_set()
                    == final(self).way_map@.dom() ==> final(self).node_map@[n].ways@.to_multiset()
                    == memberships(
                    final(self).way_map@,
                    other,
                    n,
                    other.len() as int,
                ).to_multiset(),
            forall|w: u64, i: int|
                #![trigger final(self).way_map@[w].node_ids@[i]]
                final(self).way_map@.contains_key(w) && 0 <= i && i + 1 < final(self).way_map@[w].node_ids@.len() ==> {
                    let a = final(self).way_map@[w].node_ids@[i];
                    let b = final(self).way_map@[w].node_ids@[i + 1];
                    &&& final(self).node_map@.contains_key(a) ==> final(self).node_map@[a].nodes@.contains(b)
                    &&& final(self).node_map@.contains_key(b) ==> final(self).node_map@[b].nodes@.contains(a)
                },
    {
        let mut nodes_to_keep: HashSet<u64> = HashSet::new();
        let mut ways_to_keep: HashSet<u64> = HashSet::new();
        let ghost nodes = self.node_map@;
        let ghost ways = self.way_map@;
        let mut k: usize = 0;
        while k < filters.len()
            invariant
                k <= filters@.len(),
                self.node_map == old(self).node_map,
                self.way_map == old(self).way_map,
                nodes == self.node_map@,
                ways == self.way_map@,
                self.node_subsets@.len() == old(self).node_subsets@.len() + k,
                forall|i: int|
                    0 <= i < old(self).node_subsets@.len() ==> self.node_subsets@[i] == old(self).node_subsets@[i],
                forall|i: int|
                    #![trigger filters@[i]]
                    0 <= i < k ==> {
                        let subset = self.node_subsets@[old(self).node_subsets@.len() + i];
                        &&& subset.filter_subset == filters@[i].filter_subset
                        &&& subset.node_subset@ == matched_nodes(nodes, ways, &filters@[i])
                    },
                nodes_to_keep@ == kept_nodes(nodes, ways, filters@.take(k as int)),
                ways_to_keep@ == kept_ways(ways, filters@.take(k as int)),
            decreases filters@.len() - k,
        {
            let filter = &filters[k];
            let (nodes_filtered, ways_filtered) = self.apply_rule(filter);
            add_all(&mut nodes_to_keep, &nodes_filtered);
            add_all(&mut ways_to_keep, &ways_filtered);
            let node_subset = NodeSubset::new(nodes_filtered, filter.filter_subset.duplicate());
            let ghost subsets_before = self.node_subsets@;
            self.node_subsets.push(node_subset);
            proof {
                let shorter = filters@.take(k as int);
                let longer = filters@.take(k + 1);
                assert(longer[k as int] == filters@[k as int]);
                assert forall|n: u64|
                    kept_nodes(nodes, ways, longer).contains(n) <==> kept_nodes(
                        nodes,
                        ways,
                        shorter,
                    ).contains(n) || matched_nodes(nodes, ways, &filters@[k as int]).contains(n) by {
                    if kept_nodes(nodes, ways, longer).contains(n) {
                        let i = choose|i: int|
                            0 <= i < longer.len() && matched_nodes(
                                nodes,
                                ways,
                                #[trigger] &longer[i],
                            ).contains(n);
                        if i < k {
                            assert(shorter[i] == longer[i]);
                        }
                    }
                    if kept_nodes(nodes, ways, shorter).contains(n) {
                        let i = choose|i: int|
                            0 <= i < shorter.len() && matched_nodes(
                                nodes,
                                ways,
                                #[trigger] &shorter[i],
                            ).contains(n);
                        assert(shorter[i] == longer[i]);
                    }
                }
                assert(nodes_to_keep@ =~= kept_nodes(nodes, ways, longer));
                assert forall|w: u64|
                    kept_ways(ways, longer).contains(w) <==> kept_ways(ways, shorter).contains(w)
                        || matched_ways(ways, &filters@[k as int]).contains(w) by {
                    if kept_ways(ways, longer).contains(w) {
                        let i = choose|i: int|
                            0 <= i < longer.len() && matched_ways(
                                ways,
                                #[trigger] &longer[i],
                            ).contains(w);
                        if i < k {
                            assert(shorter[i] == longer[i]);
                        }
                    }
                    if kept_ways(ways, shorter).contains(w) {
                        let i = choose|i: int|
                            0 <= i < shorter.len() && matched_ways(
                                ways,
                                #[trigger] &shorter[i],
                            ).contains(w);
                        assert(shorter[i] == longer[i]);
                    }
                }
                assert(ways_to_keep@ =~= kept_ways(ways, longer));
                assert forall|i: int| #![trigger filters@[i]] 0 <= i < k + 1 implies {
                    let subset = self.node_subsets@[old(self).node_subsets@.len() + i];
                    &&& subset.filter_subset == filters@[i].filter_subset
                    &&& subset.node_subset@ == matched_nodes(nodes, ways, &filters@[i])
                } by {
                    if i < k {
                        assert(self.node_subsets@[old(self).node_subsets@.len() + i]
                            == subsets_before[old(self).node_subsets@.len() + i]);
                    }
                }
            }
            k += 1;
        }
        proof {
            assert(filters@.take(filters@.len() as int) =~= filters@);
        }
        retain_keys(&mut self.node_map, &nodes_to_keep);
        retain_keys(&mut self.way_map, &ways_to_keep);
        proof {
            assert(self.node_map@.dom() =~= nodes.dom().intersect(
                kept_nodes(nodes, ways, filters@),
            ));
        }
        self.update_road_nodes();
    }
}

} // verus!
