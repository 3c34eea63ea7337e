//! The search frontier: entries ordered by cost and then by insertion
//! number, and a binary heap that hands them out least first.

use crate::path_finding::QueueItem;
use vstd::multiset::*;
use vstd::prelude::*;
use vstd::seq_lib::*;

verus! {

impl QueueItem {
    pub fn new(node_id: u64, order_added: usize, cost: u64, time_to_start: u64) -> (r: Self)
        ensures
            r == (QueueItem { cost, order_added, time_to_start, node_id }),
    {
        QueueItem { cost, order_added, time_to_start, node_id }
    }

    /// The order of the frontier: ascending cost, and among equal costs the
    /// entry inserted first. Nothing else of an entry counts.
    pub open spec fn spec_precedes(self, other: QueueItem) -> bool {
        self.cost < other.cost || (self.cost == other.cost && self.order_added
            < other.order_added)
    }

    /// Tells whether this entry leaves the frontier before `other`.
    pub fn precedes(&self, other: &QueueItem) -> (r: bool)
        ensures
            r == self.spec_precedes(*other),
    {
        if self.cost != other.cost {
            self.cost < other.cost
        } else {
            self.order_added < other.order_added
        }
    }
}

/// The order of the frontier is a strict order by cost and then by
/// insertion number: nothing precedes itself, precedence carries over a
/// middle entry, no two entries precede each other, and neither of two
/// entries precedes the other exactly where they agree in cost and in
/// insertion number.
pub proof fn precedence_goes_by_cost_then_insertion(a: QueueItem, b: QueueItem, c: QueueItem)
    ensures
        !a.spec_precedes(a),
        a.spec_precedes(b) && b.spec_precedes(c) ==> a.spec_precedes(c),
        a.spec_precedes(b) ==> !b.spec_precedes(a),
        !a.spec_precedes(b) && !b.spec_precedes(a) <==> a.cost == b.cost && a.order_added
            == b.order_added,
{
}

/// Among equal costs the entry inserted first leaves first.
pub proof fn equal_costs_leave_in_insertion_order(a: QueueItem, b: QueueItem)
    requires
        a.cost == b.cost,
        a.order_added < b.order_added,
    ensures
        a.spec_precedes(b),
        !b.spec_precedes(a),
{
}

/// No two entries of the frontier share an insertion number.
pub open spec fn distinctly_numbered(q: Multiset<QueueItem>) -> bool {
    forall|a: QueueItem, b: QueueItem|
        #![trigger q.contains(a), q.contains(b)]
        q.contains(a) && q.contains(b) && a.order_added == b.order_added ==> a == b
}

/// `x` is an entry of `q` that no entry of `q` precedes.
pub open spec fn is_least(q: Multiset<QueueItem>, x: QueueItem) -> bool {
    q.contains(x) && forall|y: QueueItem| q.contains(y) ==> !y.spec_precedes(x)
}

/// A frontier in which no two entries share an insertion number has at
/// most one least entry.
pub proof fn least_is_unique(q: Multiset<QueueItem>, x: QueueItem, y: QueueItem)
    requires
        distinctly_numbered(q),
        is_least(q, x),
        is_least(q, y),
    ensures
        x == y,
{
}

/// A frontier that is not empty has a least entry.
pub proof fn least_exists(q: Multiset<QueueItem>)
    requires
        q.len() > 0,
    ensures
        exists|x: QueueItem| is_least(q, x),
    decreases q.len(),
{
    let a = q.choose();
    let rest = q.remove(a);
    if rest.len() == 0 {
        assert forall|y: QueueItem| q.contains(y) implies !y.spec_precedes(a) by {
            if y != a {
                assert(rest.count(y) == q.count(y));
                assert(rest.contains(y));
                assert(rest.len() > 0);
            }
        }
        assert(is_least(q, a));
    } else {
        least_exists(rest);
        let m = choose|x: QueueItem| is_least(rest, x);
        let best = if a.spec_precedes(m) {
            a
        } else {
            m
        };
        assert(q.contains(m)) by {
            assert(rest.count(m) <= q.count(m));
        }
        assert forall|y: QueueItem| q.contains(y) implies !y.spec_precedes(best) by {
            if y != a {
                assert(rest.count(y) == q.count(y));
                assert(rest.contains(y));
            }
        }
        assert(is_least(q, best));
    }
}

/// Position of the entry above position `i` in the heap.
pub open spec fn above(i: int) -> int {
    (i - 1) / 2
}

/// No entry precedes the entry above it.
pub open spec fn heap_ordered(s: Seq<QueueItem>) -> bool {
    forall|i: int| 0 < i < s.len() ==> !(#[trigger] s[i]).spec_precedes(s[above(i)])
}

/// In an ordered heap no entry precedes the first.
proof fn first_is_least(s: Seq<QueueItem>, j: int)
    requires
        heap_ordered(s),
        0 <= j < s.len(),
    ensures
        !s[j].spec_precedes(s[0]),
    decreases j,
{
    if j > 0 {
        first_is_least(s, above(j));
    }
}

/// The frontier of a search: a binary heap of entries, least first.
pub struct PriorityQueue {
    items: Vec<QueueItem>,
}

impl View for PriorityQueue {
    type V = Multiset<QueueItem>;

    closed spec fn view(&self) -> Multiset<QueueItem> {
        self.items@.to_multiset()
    }
}

/// Exchanges the entries at two positions.
fn exchange(items: &mut Vec<QueueItem>, i: usize, j: usize)
    requires
        i < old(items)@.len(),
        j < old(items)@.len(),
    ensures
        final(items)@ == old(items)@.update(i as int, old(items)@[j as int]).update(
            j as int,
            old(items)@[i as int],
        ),
        final(items)@.to_multiset() == old(items)@.to_multiset(),
{
    let a = items[i];
    let b = items[j];
    let ghost before = items@;
    items.set(i, b);
    items.set(j, a);
    proof {
        broadcast use to_multiset_update;

        let mid = before.update(i as int, b);
        assert(mid.to_multiset() =~= before.to_multiset().insert(b).remove(a));
        assert(mid[j as int] == b);
        assert(items@.to_multiset() =~= mid.to_multiset().insert(a).remove(b));
        assert(before.to_multiset().count(a) > 0) by {
            before.to_multiset_ensures();
            assert(before.contains(a));
        }
        assert(items@.to_multiset() =~= before.to_multiset());
    }
}

impl PriorityQueue {
    /// The heap is in order.
    pub closed spec fn wf(&self) -> bool {
        heap_ordered(self.items@)
    }

    /// An empty frontier.
    pub fn new() -> (r: PriorityQueue)
        ensures
            r.wf(),
            r@ == Multiset::<QueueItem>::empty(),
    {
        let r = PriorityQueue { items: Vec::new() };
        proof {
            r.items@.to_multiset_ensures();
            assert(r@.len() == 0);
            assert(r@ =~= Multiset::<QueueItem>::empty());
        }
        r
    }

    /// Number of entries.
    pub fn len(&self) -> (r: usize)
        ensures
            r == self@.len(),
    {
        proof {
            self.items@.to_multiset_ensures();
        }
        self.items.len()
    }

    /// Removes every entry.
    pub fn clear(&mut self)
        ensures
            final(self).wf(),
            final(self)@ == Multiset::<QueueItem>::empty(),
    {
        self.items.clear();
        proof {
            self.items@.to_multiset_ensures();
            assert(self@.len() == 0);
            assert(self@ =~= Multiset::<QueueItem>::empty());
        }
    }

    /// Adds an entry.
    pub fn push(&mut self, item: QueueItem)
        requires
            old(self).wf(),
        ensures
            final(self).wf(),
            final(self)@ == old(self)@.insert(item),
    {
        let ghost before = self.items@;
        self.items.push(item);
        proof {
            before.to_multiset_ensures();
            assert(self.items@ == before.push(item));
        }
        let ghost contents = self.items@.to_multiset();
        let mut i: usize = self.items.len() - 1;
        while i > 0
            invariant
                i < self.items@.len(),
                self.items@.to_multiset() == contents,
                forall|j: int|
                    0 < j < self.items@.len() && j != i ==> !(#[trigger] self.items@[j]).spec_precedes(
                        self.items@[above(j)],
                    ),
                forall|j: int|
                    0 < j < self.items@.len() && above(j) == i && i > 0 ==> !(
                    #[trigger] self.items@[j]).spec_precedes(self.items@[above(i as int)]),
            ensures
                heap_ordered(self.items@),
                self.items@.to_multiset() == contents,
            decreases i,
        {
            let up: usize = (i - 1) / 2;
            if self.items[i].precedes(&self.items[up]) {
                let ghost s = self.items@;
                exchange(&mut self.items, i, up);
                proof {
                    let t = self.items@;
                    assert forall|j: int| 0 < j < t.len() && j != up implies !(#[trigger] t[j]).spec_precedes(
                        t[above(j)],
                    ) by {
                        if j == i {
                        } else if above(j) == i {
                            assert(!s[j].spec_precedes(s[above(i as int)]));
                        } else if above(j) == up {
                            assert(!s[j].spec_precedes(s[above(j)]));
                        } else {
                            assert(!s[j].spec_precedes(s[above(j)]));
                        }
                    }
                    assert forall|j: int| 0 < j < t.len() && above(j) == up && up > 0 implies !(
                    #[trigger] t[j]).spec_precedes(t[above(up as int)]) by {
                        assert(!s[up as int].spec_precedes(s[above(up as int)]));
                        if j != i {
                            assert(!s[j].spec_precedes(s[above(j)]));
                        }
                    }
                }
                i = up;
            } else {
                proof {
                    assert forall|j: int| 0 < j < self.items@.len() implies !(
                    #[trigger] self.items@[j]).spec_precedes(self.items@[above(j)]) by {}
                }
                break ;
            }
        }
    }

    /// Removes the least entry and returns it.
    pub fn pop(&mut self) -> (r: Option<QueueItem>)
        requires
            old(self).wf(),
        ensures
            final(self).wf(),
            match r {
                Some(x) => is_least(old(self)@, x) && final(self)@ == old(self)@.remove(x),
                None => old(self)@.len() == 0 && final(self)@ == old(self)@,
            },
    {
        let ghost before = self.items@;
        proof {
            before.to_multiset_ensures();
        }
        let n = self.items.len();
        if n == 0 {
            return None;
        }
        let least = self.items[0];
        proof {
            assert forall|y: QueueItem| before.to_multiset().contains(y) implies !y.spec_precedes(
                least,
            ) by {
                assert(before.contains(y));
                let j = choose|j: int| 0 <= j < before.len() && before[j] == y;
                first_is_least(before, j);
            }
            assert(before.contains(least));
        }
        exchange(&mut self.items, 0, n - 1);
        let ghost swapped = self.items@;
        let taken = self.items.pop();
        proof {
            assert(taken == Some(least));
            assert(self.items@ =~= swapped.remove(n - 1));
            swapped.to_multiset_ensures();
            assert(self.items@.to_multiset() =~= before.to_multiset().remove(least));
        }
        let ghost contents = self.items@.to_multiset();
        let m = self.items.len();
        let mut i: usize = 0;
        while i < m / 2
            invariant
                m == self.items@.len(),
                self.items@.to_multiset() == contents,
                forall|j: int|
                    0 < j < m && above(j) != i ==> !(#[trigger] self.items@[j]).spec_precedes(
                        self.items@[above(j)],
                    ),
                forall|j: int|
                    0 < j < m && above(j) == i && i > 0 ==> !(#[trigger] self.items@[j]).spec_precedes(
                        self.items@[above(i as int)],
                    ),
            ensures
                heap_ordered(self.items@),
                self.items@.to_multiset() == contents,
            decreases m - i,
        {
            let left: usize = 2 * i + 1;
            let right: usize = left + 1;
            let mut child: usize = left;
            if right < m && self.items[right].precedes(&self.items[left]) {
                child = right;
            }
            if self.items[child].precedes(&self.items[i]) {
                let ghost s = self.items@;
                exchange(&mut self.items, i, child);
                proof {
                    let t = self.items@;
                    assert(above(left as int) == i);
                    assert(right < m ==> above(right as int) == i);
                    assert forall|j: int| 0 < j < m && above(j) != child implies !(
                    #[trigger] t[j]).spec_precedes(t[above(j)]) by {
                        if j == i {
                            assert(!s[child as int].spec_precedes(s[above(i as int)]));
                        } else if above(j) == i {
                            assert(j == left || j == right);
                        } else {
                            assert(!s[j].spec_precedes(s[above(j)]));
                        }
                    }
                    assert forall|j: int| 0 < j < m && above(j) == child implies !(
                    #[trigger] t[j]).spec_precedes(t[above(child as int)]) by {
                        assert(!s[j].spec_precedes(s[above(j)]));
                    }
                }
                i = child;
            } else {
                proof {
                    assert(above(left as int) == i);
                    assert forall|j: int| 0 < j < m implies !(#[trigger] self.items@[j]).spec_precedes(
                        self.items@[above(j)],
                    ) by {
                        if above(j) == i {
                            assert(j == left || j == right);
                        }
                    }
                }
                break ;
            }
        }
        Some(least)
    }
}

} // verus!
