//! Measured distances between nodes.
//!
//! The graph holds positions, not distances: what lies between two nodes
//! is measured on the globe by whoever builds a table, and read from the
//! table by the searches.

use std::collections::HashMap;
use vstd::prelude::*;
use vstd::std_specs::hash::*;

verus! {

broadcast use group_hash_axioms;

/// Distances from one node to another, in billionths of a metre.
pub struct DistanceTable {
    rows: HashMap<u64, HashMap<u64, u64>>,
}

impl View for DistanceTable {
    type V = Map<(u64, u64), u64>;

    closed spec fn view(&self) -> Map<(u64, u64), u64> {
        Map::new(
            |pair: (u64, u64)|
                self.rows@.contains_key(pair.0) && self.rows@[pair.0]@.contains_key(pair.1),
            |pair: (u64, u64)| self.rows@[pair.0]@[pair.1],
        )
    }
}

/// The distances that a table holds from one node.
pub open spec fn distances_from(table: Map<(u64, u64), u64>, from: u64) -> Map<u64, u64> {
    Map::new(|to: u64| table.contains_key((from, to)), |to: u64| table[(from, to)])
}

impl DistanceTable {
    /// A table without measurements.
    pub fn new() -> (r: DistanceTable)
        ensures
            r@ == Map::<(u64, u64), u64>::empty(),
    {
        let r = DistanceTable { rows: HashMap::new() };
        assert(r@ =~= Map::<(u64, u64), u64>::empty());
        r
    }

    /// Records the distance from `from` to `to`, in place of an earlier one.
    pub fn record(&mut self, from: u64, to: u64, distance: u64)
        ensures
            final(self)@ == old(self)@.insert((from, to), distance),
    {
        let mut row = match self.rows.remove(&from) {
            Some(row) => row,
            None => HashMap::new(),
        };
        row.insert(to, distance);
        self.rows.insert(from, row);
        assert(self@ =~= old(self)@.insert((from, to), distance));
    }

    /// The distance recorded from `from` to `to`.
    pub fn distance(&self, from: u64, to: u64) -> (r: Option<u64>)
        ensures
            r == (if self@.contains_key((from, to)) {
                Some(self@[(from, to)])
            } else {
                None
            }),
    {
        match self.rows.get(&from) {
            Some(row) => match row.get(&to) {
                Some(distance) => Some(*distance),
                None => None,
            },
            None => None,
        }
    }

    /// The distances recorded from `from`, if there are any.
    pub fn row(&self, from: u64) -> (r: Option<&HashMap<u64, u64>>)
        ensures
            match r {
                Some(row) => row@ == distances_from(self@, from),
                None => distances_from(self@, from) == Map::<u64, u64>::empty(),
            },
    {
        let r = self.rows.get(&from);
        proof {
            match r {
                Some(row) => {
                    assert(row@ =~= distances_from(self@, from));
                },
                None => {
                    assert(distances_from(self@, from) =~= Map::<u64, u64>::empty());
                },
            }
        }
        r
    }
}

} // verus!
