//! What holds of the way back along parent pointers.

use crate::path_finding::path_finding::ancestry;
use vstd::prelude::*;
use vstd::set_lib::*;

verus! {

/// With more steps allowed the way back stays the same.
pub proof fn more_fuel_same_way(parents: Map<u64, u64>, start: u64, child: u64, n: nat, m: nat)
    requires
        ancestry(parents, start, child, n) is Some,
        n <= m,
    ensures
        ancestry(parents, start, child, m) == ancestry(parents, start, child, n),
    decreases n,
{
    if child != start {
        more_fuel_same_way(parents, start, parents[child], (n - 1) as nat, (m - 1) as nat);
    }
}

/// A way back starts at the child and ends at the start; every node on
/// it but the last has the next node as its parent, and is not the start.
pub proof fn way_back_follows_parents(parents: Map<u64, u64>, start: u64, child: u64, n: nat)
    requires
        ancestry(parents, start, child, n) is Some,
    ensures
        ({
            let chain = ancestry(parents, start, child, n)->0;
            &&& chain.len() >= 1
            &&& chain.len() <= n + 1
            &&& chain[0] == child
            &&& chain.last() == start
            &&& forall|i: int|
                0 <= i < chain.len() - 1 ==> (#[trigger] chain[i]) != start && parents.contains_key(
                    chain[i],
                ) && chain[i + 1] == parents[chain[i]]
        }),
    decreases n,
{
    if child != start {
        way_back_follows_parents(parents, start, parents[child], (n - 1) as nat);
        let rest = ancestry(parents, start, parents[child], (n - 1) as nat)->0;
        let chain = seq![child] + rest;
        assert forall|i: int| 0 <= i < chain.len() - 1 implies (#[trigger] chain[i]) != start
            && parents.contains_key(chain[i]) && chain[i + 1] == parents[chain[i]] by {
            if i > 0 {
                assert(chain[i] == rest[i - 1]);
                assert(chain[i + 1] == rest[i]);
            } else {
                assert(chain[1] == rest[0]);
            }
        }
    }
}

/// What is left of a way back from some node on is the way back of that
/// node.
pub proof fn rest_of_way_back(parents: Map<u64, u64>, start: u64, child: u64, n: nat, k: int)
    requires
        ancestry(parents, start, child, n) is Some,
        0 <= k < (ancestry(parents, start, child, n)->0).len(),
    ensures
        k <= n,
        ancestry(parents, start, (ancestry(parents, start, child, n)->0)[k], (n - k) as nat)
            == Some((ancestry(parents, start, child, n)->0).skip(k)),
    decreases k,
{
    let chain = ancestry(parents, start, child, n)->0;
    if k == 0 {
        way_back_follows_parents(parents, start, child, n);
        assert(chain.skip(0) =~= chain);
    } else {
        way_back_follows_parents(parents, start, child, n);
        let rest = ancestry(parents, start, parents[child], (n - 1) as nat)->0;
        assert(chain == seq![child] + rest);
        rest_of_way_back(parents, start, parents[child], (n - 1) as nat, k - 1);
        assert(rest[k - 1] == chain[k]);
        assert(rest.skip(k - 1) =~= chain.skip(k));
    }
}

/// No node stands twice on a way back.
pub proof fn way_back_has_no_circle(parents: Map<u64, u64>, start: u64, child: u64, n: nat)
    requires
        ancestry(parents, start, child, n) is Some,
    ensures
        (ancestry(parents, start, child, n)->0).no_duplicates(),
    decreases n,
{
    let chain = ancestry(parents, start, child, n)->0;
    if child != start {
        let rest = ancestry(parents, start, parents[child], (n - 1) as nat)->0;
        way_back_has_no_circle(parents, start, parents[child], (n - 1) as nat);
        assert(chain == seq![child] + rest);
        if rest.contains(child) {
            let k = choose|k: int| 0 <= k < rest.len() && rest[k] == child;
            rest_of_way_back(parents, start, parents[child], (n - 1) as nat, k);
            more_fuel_same_way(parents, start, child, (n - 1 - k) as nat, n);
            assert(chain == rest.skip(k));
            assert(false);
        }
        assert forall|i: int, j: int| 0 <= i < chain.len() && 0 <= j < chain.len() && i != j implies chain[i]
            != chain[j] by {
            if i == 0 {
                assert(chain[j] == rest[j - 1]);
            } else if j == 0 {
                assert(chain[i] == rest[i - 1]);
            } else {
                assert(chain[i] == rest[i - 1]);
                assert(chain[j] == rest[j - 1]);
            }
        }
    }
}

/// A way back takes one step less than it has nodes.
pub proof fn way_back_needs_its_length(parents: Map<u64, u64>, start: u64, child: u64, n: nat)
    requires
        ancestry(parents, start, child, n) is Some,
    ensures
        ancestry(
            parents,
            start,
            child,
            ((ancestry(parents, start, child, n)->0).len() - 1) as nat,
        ) == ancestry(parents, start, child, n),
    decreases n,
{
    if child != start {
        way_back_needs_its_length(parents, start, parents[child], (n - 1) as nat);
        way_back_follows_parents(parents, start, parents[child], (n - 1) as nat);
    }
}

/// A way back among finitely many parent pointers, from a node that has
/// one and to a start that has one, takes at most as many steps as there are
/// pointers.
pub proof fn way_back_fits_the_pointers(parents: Map<u64, u64>, start: u64, child: u64, n: nat)
    requires
        ancestry(parents, start, child, n) is Some,
        parents.dom().finite(),
        parents.contains_key(start),
    ensures
        ancestry(parents, start, child, parents.dom().len()) == ancestry(parents, start, child, n),
{
    let chain = ancestry(parents, start, child, n)->0;
    way_back_follows_parents(parents, start, child, n);
    way_back_has_no_circle(parents, start, child, n);
    way_back_needs_its_length(parents, start, child, n);
    chain.unique_seq_to_set();
    assert forall|v: u64| chain.to_set().contains(v) implies parents.dom().contains(v) by {
        let i = choose|i: int| 0 <= i < chain.len() && chain[i] == v;
        if i < chain.len() - 1 {
            assert(parents.contains_key(chain[i]));
        }
    }
    lemma_len_subset(chain.to_set(), parents.dom());
    more_fuel_same_way(parents, start, child, (chain.len() - 1) as nat, parents.dom().len());
}

/// A new pointer at a node that is not on a way back leaves the way back
/// as it is.
pub proof fn pointer_off_the_way(
    parents: Map<u64, u64>,
    start: u64,
    child: u64,
    n: nat,
    node: u64,
    parent: u64,
)
    requires
        ancestry(parents, start, child, n) is Some,
        !(ancestry(parents, start, child, n)->0).contains(node),
    ensures
        ancestry(parents.insert(node, parent), start, child, n) == ancestry(
            parents,
            start,
            child,
            n,
        ),
    decreases n,
{
    let chain = ancestry(parents, start, child, n)->0;
    way_back_follows_parents(parents, start, child, n);
    assert(chain[0] == child);
    if child != start {
        let rest = ancestry(parents, start, parents[child], (n - 1) as nat)->0;
        assert(chain == seq![child] + rest);
        assert forall|i: int| 0 <= i < rest.len() implies rest[i] != node by {
            assert(chain[i + 1] == rest[i]);
        }
        pointer_off_the_way(parents, start, parents[child], (n - 1) as nat, node, parent);
    }
}

/// Where every node with a pointer has a way back, and a node gets a new
/// parent whose way back does not pass the node, every node with a pointer
/// has a way back still.
pub proof fn new_pointer_keeps_ways(
    parents: Map<u64, u64>,
    start: u64,
    child: u64,
    n: nat,
    node: u64,
    parent: u64,
    m: nat,
)
    requires
        ancestry(parents, start, child, n) is Some,
        ancestry(parents, start, parent, m) is Some,
        !(ancestry(parents, start, parent, m)->0).contains(node),
    ensures
        exists|k: nat| ancestry(parents.insert(node, parent), start, child, k) is Some,
    decreases n,
{
    let after = parents.insert(node, parent);
    if child == start {
        assert(ancestry(after, start, child, 0) is Some);
    } else if child == node {
        pointer_off_the_way(parents, start, parent, m, node, parent);
        assert(ancestry(after, start, child, m + 1) is Some);
    } else {
        new_pointer_keeps_ways(parents, start, parents[child], (n - 1) as nat, node, parent, m);
        let k = choose|k: nat| ancestry(after, start, parents[child], k) is Some;
        assert(ancestry(after, start, child, k + 1) is Some);
    }
}

} // verus!
