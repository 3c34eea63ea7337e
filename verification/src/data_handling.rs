//! The graph store: nodes, ways and the named subsets of nodes.

use crate::osm_parsing::{Node, Way};
use std::collections::{HashMap, HashSet};
use vstd::prelude::*;

pub mod data_handling;
pub mod filtering;
pub mod order_laws;
pub mod searching;

verus! {

/// The whole graph.
#[derive(Debug)]
pub struct OSMData {
    pub node_map: HashMap<u64, Node>,
    pub way_map: HashMap<u64, Way>,
    pub node_subsets: Vec<NodeSubset>,
}

/// The nodes that one filter rule matched.
#[derive(Debug)]
pub struct NodeSubset {
    pub filter_subset: FilterSubset,
    pub node_subset: HashSet<u64>,
}

/// The category that a filter rule fills.
#[derive(Debug)]
pub enum FilterSubset {
    Roads,
    Landmark(String),
    AllLandmarks,
}

/// A filter rule: a tag key, the values accepted under it, and the
/// category that matching features go to.
#[derive(Debug)]
pub struct FilterSet {
    pub filter_key: String,
    pub filter_values: Vec<String>,
    pub filter_subset: FilterSubset,
}

} // verus!
