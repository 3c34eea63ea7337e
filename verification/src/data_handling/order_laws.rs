//! That the order in which the ways are gone through decides nothing but
//! the order within the lists.

use crate::data_handling::data_handling::{links, links_in, memberships, memberships_in};
use crate::osm_parsing::Way;
use vstd::multiset::*;
use vstd::prelude::*;
use vstd::seq_lib::*;

verus! {

/// What the first `upto` entries of `order` give, one after the other.
pub open spec fn gather(order: Seq<u64>, part: spec_fn(u64) -> Seq<u64>, upto: int) -> Seq<u64>
    decreases upto,
{
    if upto <= 0 {
        Seq::empty()
    } else {
        gather(order, part, upto - 1) + part(order[upto - 1])
    }
}

/// What all the entries of `order` give.
pub open spec fn gather_all(order: Seq<u64>, part: spec_fn(u64) -> Seq<u64>) -> Seq<u64> {
    gather(order, part, order.len() as int)
}

/// What a way adds to the neighbour list of a node.
pub open spec fn links_part(ways: Map<u64, Way>, node: u64) -> spec_fn(u64) -> Seq<u64> {
    |w: u64| links_in(ways[w].node_ids@, node, ways[w].node_ids@.len() - 1)
}

/// What a way adds to the membership list of a node.
pub open spec fn memberships_part(ways: Map<u64, Way>, node: u64) -> spec_fn(u64) -> Seq<u64> {
    |w: u64| memberships_in(ways[w].node_ids@, w, node, ways[w].node_ids@.len() as int)
}

/// The neighbour list that the ways give is what they add, gathered.
pub proof fn links_are_gathered(ways: Map<u64, Way>, order: Seq<u64>, node: u64, upto: int)
    ensures
        links(ways, order, node, upto) == gather(order, links_part(ways, node), upto),
    decreases upto,
{
    if upto > 0 {
        links_are_gathered(ways, order, node, upto - 1);
    }
}

/// The membership list that the ways give is what they add, gathered.
pub proof fn memberships_are_gathered(ways: Map<u64, Way>, order: Seq<u64>, node: u64, upto: int)
    ensures
        memberships(ways, order, node, upto) == gather(order, memberships_part(ways, node), upto),
    decreases upto,
{
    if upto > 0 {
        memberships_are_gathered(ways, order, node, upto - 1);
    }
}

/// What the first entries give does not depend on what follows them.
proof fn gather_reads_its_prefix(
    a: Seq<u64>,
    b: Seq<u64>,
    part: spec_fn(u64) -> Seq<u64>,
    upto: int,
)
    requires
        upto <= a.len(),
    ensures
        gather(a + b, part, upto) == gather(a, part, upto),
    decreases upto,
{
    if upto > 0 {
        gather_reads_its_prefix(a, b, part, upto - 1);
        assert((a + b)[upto - 1] == a[upto - 1]);
    }
}

/// What two lists give one after the other holds what each of them gives.
proof fn gather_of_two(a: Seq<u64>, b: Seq<u64>, part: spec_fn(u64) -> Seq<u64>)
    ensures
        gather_all(a + b, part).to_multiset() == gather_all(a, part).to_multiset().add(
            gather_all(b, part).to_multiset(),
        ),
    decreases b.len(),
{
    broadcast use lemma_multiset_commutative;

    if b.len() == 0 {
        assert(a + b =~= a);
        assert(gather_all(b, part) =~= Seq::<u64>::empty());
        assert(gather_all(b, part).to_multiset() =~= Multiset::<u64>::empty()) by {
            gather_all(b, part).to_multiset_ensures();
        }
        assert(gather_all(a + b, part).to_multiset() =~= gather_all(a, part).to_multiset().add(
            gather_all(b, part).to_multiset(),
        ));
    } else {
        let shorter = b.drop_last();
        let x = b.last();
        let whole = a + b;
        assert(whole =~= (a + shorter) + seq![x]);
        gather_of_two(a, shorter, part);
        gather_reads_its_prefix(a + shorter, seq![x], part, (a + shorter).len() as int);
        gather_reads_its_prefix(shorter, seq![x], part, shorter.len() as int);
        assert(b =~= shorter + seq![x]);
        assert(whole[whole.len() - 1] == x);
        assert(gather_all(whole, part) == gather_all(a + shorter, part) + part(x));
        assert(gather_all(b, part) == gather_all(shorter, part) + part(x));
        assert(gather_all(whole, part).to_multiset() =~= gather_all(a, part).to_multiset().add(
            gather_all(b, part).to_multiset(),
        ));
    }
}

/// Two lists without repeats that hold the same entries give the same, but
/// for the order.
pub proof fn gather_in_any_order(a: Seq<u64>, b: Seq<u64>, part: spec_fn(u64) -> Seq<u64>)
    requires
        a.no_duplicates(),
        b.no_duplicates(),
        a.to_set() == b.to_set(),
    ensures
        gather_all(a, part).to_multiset() == gather_all(b, part).to_multiset(),
    decreases a.len(),
{
    if a.len() == 0 {
        if b.len() > 0 {
            assert(b.to_set().contains(b[0]));
            assert(a.to_set().contains(b[0]));
        }
        assert(a =~= b);
    } else {
        let x = a.last();
        let rest = a.drop_last();
        assert(a.to_set().contains(x));
        assert(b.to_set().contains(x));
        let p = choose|p: int| 0 <= p < b.len() && b[p] == x;
        let before = b.take(p);
        let after = b.skip(p + 1);
        let others = before + after;
        assert(b =~= before + (seq![x] + after));
        assert(a =~= rest + seq![x]);
        assert forall|i: int, j: int| 0 <= i < others.len() && 0 <= j < others.len() && i
            != j implies others[i] != others[j] by {
            let bi = if i < p {
                i
            } else {
                i + 1
            };
            let bj = if j < p {
                j
            } else {
                j + 1
            };
            assert(others[i] == b[bi]);
            assert(others[j] == b[bj]);
        }
        assert forall|i: int, j: int| 0 <= i < rest.len() && 0 <= j < rest.len() && i
            != j implies rest[i] != rest[j] by {
            assert(rest[i] == a[i]);
            assert(rest[j] == a[j]);
        }
        assert forall|v: u64| rest.to_set().contains(v) <==> others.to_set().contains(v) by {
            if rest.to_set().contains(v) {
                let i = choose|i: int| 0 <= i < rest.len() && rest[i] == v;
                assert(a[i] == v);
                assert(v != x);
                assert(a.to_set().contains(v));
                assert(b.to_set().contains(v));
                let j = choose|j: int| 0 <= j < b.len() && b[j] == v;
                if j < p {
                    assert(others[j] == v);
                } else {
                    assert(others[j - 1] == v);
                }
            }
            if others.to_set().contains(v) {
                let i = choose|i: int| 0 <= i < others.len() && others[i] == v;
                let bi = if i < p {
                    i
                } else {
                    i + 1
                };
                assert(others[i] == b[bi]);
                assert(v != x);
                assert(b.to_set().contains(v));
                assert(a.to_set().contains(v));
                let j = choose|j: int| 0 <= j < a.len() && a[j] == v;
                assert(rest[j] == v);
            }
        }
        assert(rest.to_set() =~= others.to_set());
        gather_in_any_order(rest, others, part);
        gather_of_two(rest, seq![x], part);
        gather_of_two(before, seq![x] + after, part);
        gather_of_two(seq![x], after, part);
        gather_of_two(before, after, part);
        assert(gather_all(a, part).to_multiset() =~= gather_all(b, part).to_multiset());
    }
}

/// The neighbour lists and the membership lists that the ways give hold
/// the same in whatever order the ways are gone through.
pub proof fn rebuild_order_is_immaterial(
    ways: Map<u64, Way>,
    first: Seq<u64>,
    second: Seq<u64>,
    node: u64,
)
    requires
        first.no_duplicates(),
        second.no_duplicates(),
        first.to_set() == second.to_set(),
    ensures
        links(ways, first, node, first.len() as int).to_multiset() == links(
            ways,
            second,
            node,
            second.len() as int,
        ).to_multiset(),
        memberships(ways, first, node, first.len() as int).to_multiset() == memberships(
            ways,
            second,
            node,
            second.len() as int,
        ).to_multiset(),
{
    links_are_gathered(ways, first, node, first.len() as int);
    links_are_gathered(ways, second, node, second.len() as int);
    memberships_are_gathered(ways, first, node, first.len() as int);
    memberships_are_gathered(ways, second, node, second.len() as int);
    gather_in_any_order(first, second, links_part(ways, node));
    gather_in_any_order(first, second, memberships_part(ways, node));
}

} // verus!
