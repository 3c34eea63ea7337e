//! The keys of hashed collections as plain lists.

use std::collections::{HashMap, HashSet};
use vstd::prelude::*;
use vstd::std_specs::hash::*;
use vstd::std_specs::iter::IteratorSpec;

verus! {

broadcast use group_hash_axioms;

/// The keys of `map`, each once, in the order in which the map hands them
/// out.
pub fn map_keys<V>(map: &HashMap<u64, V>) -> (r: Vec<u64>)
    ensures
        r@.no_duplicates(),
        r@.to_set() == map@.dom(),
{
    let mut out: Vec<u64> = Vec::new();
    for key in it: map.keys()
        invariant
            it.seq() == spec_keys_iter(map).remaining(),
            out@.len() == it.index(),
            forall|i: int| 0 <= i < out@.len() ==> out@[i] == *it.seq()[i],
    {
        out.push(*key);
    }
    proof {
        let seen = spec_keys_iter(map).remaining();
        axiom_spec_keys_iter(map);
        assert(out@ =~= seen.unref());
    }
    out
}

/// The members of `set`, each once, in the order in which the set hands
/// them out.
pub fn set_members(set: &HashSet<u64>) -> (r: Vec<u64>)
    ensures
        r@.no_duplicates(),
        r@.to_set() == set@,
{
    let mut out: Vec<u64> = Vec::new();
    for key in it: set.iter()
        invariant
            it.seq() == spec_hash_keys_iter(set).remaining(),
            out@.len() == it.index(),
            forall|i: int| 0 <= i < out@.len() ==> out@[i] == *it.seq()[i],
    {
        out.push(*key);
    }
    proof {
        let seen = spec_hash_keys_iter(set).remaining();
        axiom_spec_hash_keys_iter(set);
        assert(out@ =~= seen.unref());
    }
    out
}

/// Adds every member of `from` to `into`.
pub fn add_all(into: &mut HashSet<u64>, from: &HashSet<u64>)
    ensures
        final(into)@ == old(into)@.union(from@),
{
    let members = set_members(from);
    let mut i: usize = 0;
    while i < members.len()
        invariant
            i <= members@.len(),
            members@.to_set() == from@,
            forall|n: u64|
                into@.contains(n) <==> old(into)@.contains(n) || exists|j: int|
                    0 <= j < i && members@[j] == n,
        decreases members@.len() - i,
    {
        into.insert(members[i]);
        i += 1;
    }
    proof {
        assert forall|n: u64| into@.contains(n) <==> old(into)@.union(from@).contains(n) by {
            if from@.contains(n) {
                assert(members@.to_set().contains(n));
            }
            if exists|j: int| 0 <= j < members@.len() && members@[j] == n {
                assert(members@.to_set().contains(n));
            }
        }
        assert(into@ =~= old(into)@.union(from@));
    }
}

/// Removes from `map` every key that is not in `keep`.
pub fn retain_keys<V>(map: &mut HashMap<u64, V>, keep: &HashSet<u64>)
    ensures
        final(map)@ == old(map)@.restrict(keep@),
{
    let keys = map_keys(map);
    let mut i: usize = 0;
    while i < keys.len()
        invariant
            i <= keys@.len(),
            keys@.to_set() == old(map)@.dom(),
            forall|k: u64| #[trigger]
                map@.contains_key(k) ==> old(map)@.contains_key(k) && map@[k] == old(map)@[k],
            forall|k: u64|
                old(map)@.contains_key(k) ==> (#[trigger] map@.contains_key(k) <==> keep@.contains(k)
                    || !exists|j: int| 0 <= j < i && keys@[j] == k),
        decreases keys@.len() - i,
    {
        if !keep.contains(&keys[i]) {
            map.remove(&keys[i]);
        }
        i += 1;
    }
    proof {
        assert forall|k: u64| map@.contains_key(k) <==> old(map)@.restrict(keep@).contains_key(
            k,
        ) by {
            if old(map)@.contains_key(k) {
                assert(keys@.to_set().contains(k));
            }
        }
        assert(map@ =~= old(map)@.restrict(keep@));
    }
}

} // verus!
