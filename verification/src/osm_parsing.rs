//! Nodes and ways, and the reading of a map extract into them.

use crate::tags::Tags;
use vstd::prelude::*;

pub mod osm_data_types;
pub mod osm_parsing;
pub mod state_machine;

verus! {

/// What the reader of a map extract is inside of.
#[derive(Clone, Copy, Debug, PartialEq, Eq, Structural)]
pub enum CurrentlyReading {
    Node(u64),
    Way(u64),
    Relation(u64),
    Nothing,
}

/// Why a map extract cannot be read.
#[derive(Clone, Copy, Debug, PartialEq, Eq, Structural)]
pub enum IngestError {
    /// An element lacks an attribute that it must have.
    MissingAttribute,
    /// An identifier or a coordinate is no number.
    InvalidNumber,
    /// A tag does not consist of a key and a value.
    MalformedTag,
    /// A node reference does not consist of one reference.
    MalformedReference,
}

/// A position on the globe, in billionths of a degree.
#[derive(Clone, Copy, Debug, PartialEq, Eq, Structural)]
pub struct Coordinate {
    pub longitude: i64,
    pub latitude: i64,
}

/// A point feature.
#[derive(Debug)]
pub struct Node {
    pub id: u64,
    pub coordinate: Coordinate,
    pub tags: Tags,
    /// The ways that this node lies on.
    pub ways: Vec<u64>,
    /// The nodes next to this one on some way.
    pub nodes: Vec<u64>,
}

/// A polyline: an ordered sequence of node references.
#[derive(Debug)]
pub struct Way {
    pub id: u64,
    pub node_ids: Vec<u64>,
    pub tags: Tags,
}

/// Keeps track of the element that is being read.
pub struct StateMachine {
    currently_reading: CurrentlyReading,
}

} // verus!
