//! What holds of every search: that it ends, that what it finds is a
//! journey through the graph, and that it finds one wherever there is one.

use crate::path_finding::ancestry_laws::{
    new_pointer_keeps_ways, pointer_off_the_way, way_back_follows_parents,
};
use crate::path_finding::path_finding::{ancestry, finished, SearchContext, SearchState};
use crate::path_finding::queue_handling::{distinctly_numbered, is_least, least_exists};
use crate::path_finding::QueueItem;
use vstd::multiset::*;
use vstd::prelude::*;

verus! {

/// What a node weighs in the measure of a search: the time in which it
/// was reached, or more than any time where it was not reached.
pub open spec fn weight(times: Map<u64, u64>, node: u64) -> nat {
    if times.contains_key(node) {
        times[node] as nat
    } else {
        0x1_0000_0000_0000_0000
    }
}

/// The weights of the nodes in `order`, added up.
pub open spec fn potential(order: Seq<u64>, times: Map<u64, u64>) -> nat
    decreases order.len(),
{
    if order.len() == 0 {
        0
    } else {
        potential(order.drop_last(), times) + weight(times, order.last())
    }
}

/// Where no node gains weight, the sum does not grow; where a node of
/// `order` loses weight, the sum shrinks.
proof fn potential_shrinks(order: Seq<u64>, before: Map<u64, u64>, after: Map<u64, u64>, node: u64)
    requires
        forall|v: u64| weight(after, v) <= weight(before, v),
        weight(after, node) < weight(before, node),
    ensures
        potential(order, after) <= potential(order, before),
        order.contains(node) ==> potential(order, after) < potential(order, before),
    decreases order.len(),
{
    if order.len() > 0 {
        potential_shrinks(order.drop_last(), before, after, node);
        if order.contains(node) && order.last() != node {
            let i = choose|i: int| 0 <= i < order.len() && order[i] == node;
            assert(order.drop_last()[i] == node);
        }
    }
}

/// Looking at one node ends the search, changes nothing, or makes the
/// measure smaller.
proof fn relax_measure(
    ctx: SearchContext,
    order: Seq<u64>,
    s: SearchState,
    parent: u64,
    time: u64,
    child: u64,
)
    requires
        forall|v: u64| ctx.neighbours.contains_key(v) ==> order.contains(v),
    ensures
        ({
            let r = ctx.relax(s, parent, time, child);
            r.found || r == s || potential(order, r.times) < potential(order, s.times)
        }),
{
    let r = ctx.relax(s, parent, time, child);
    if !r.found && r != s {
        potential_shrinks(order, s.times, r.times, child);
    }
}

/// Looking at a run of nodes ends the search, changes nothing, or makes the
/// measure smaller.
proof fn expand_measure(
    ctx: SearchContext,
    order: Seq<u64>,
    s: SearchState,
    parent: u64,
    time: u64,
    children: Seq<u64>,
    from: int,
)
    requires
        forall|v: u64| ctx.neighbours.contains_key(v) ==> order.contains(v),
    ensures
        ({
            let e = ctx.expand(s, parent, time, children, from);
            e.found || e == s || potential(order, e.times) < potential(order, s.times)
        }),
    decreases children.len() - from,
{
    if !(from < 0 || from >= children.len() || s.found) {
        relax_measure(ctx, order, s, parent, time, children[from]);
        expand_measure(
            ctx,
            order,
            ctx.relax(s, parent, time, children[from]),
            parent,
            time,
            children,
            from + 1,
        );
    }
}

/// A step of a search that has not ended ends it, makes the measure
/// smaller, or leaves the measure and shortens the frontier.
proof fn step_measure(ctx: SearchContext, order: Seq<u64>, s: SearchState)
    requires
        forall|v: u64| ctx.neighbours.contains_key(v) ==> order.contains(v),
        !finished(s),
    ensures
        ({
            let t = ctx.step(s);
            finished(t) || potential(order, t.times) < potential(order, s.times) || (potential(
                order,
                t.times,
            ) == potential(order, s.times) && t.frontier.len() < s.frontier.len())
        }),
{
    least_exists(s.frontier);
    let item = choose|x: QueueItem| is_least(s.frontier, x);
    let rest = SearchState { frontier: s.frontier.remove(item), ..s };
    assert(rest.frontier.len() < s.frontier.len());
    if !ctx.stale(s, item) && ctx.neighbours.contains_key(item.node_id) {
        expand_measure(
            ctx,
            order,
            rest,
            item.node_id,
            item.time_to_start,
            ctx.neighbours[item.node_id],
            0,
        );
    }
}

/// A search that has made `k` steps ends.
proof fn search_ends_from(ctx: SearchContext, order: Seq<u64>, k: nat)
    requires
        forall|v: u64| ctx.neighbours.contains_key(v) ==> order.contains(v),
    ensures
        exists|n: nat| ctx.ends_within(n),
    decreases potential(order, ctx.run(k).times), ctx.run(k).frontier.len(),
{
    if finished(ctx.run(k)) {
        assert(ctx.ends_within(k));
    } else {
        step_measure(ctx, order, ctx.run(k));
        assert(ctx.run(k + 1) == ctx.step(ctx.run(k)));
        if finished(ctx.run(k + 1)) {
            assert(ctx.ends_within(k + 1));
        } else {
            search_ends_from(ctx, order, k + 1);
        }
    }
}

/// Every search on a graph of finitely many nodes ends: after some number
/// of steps the target is reached or nothing waits in the frontier.
pub proof fn search_always_ends(ctx: SearchContext)
    requires
        ctx.neighbours.dom().finite(),
    ensures
        exists|n: nat| ctx.ends_within(n),
{
    let nodes = ctx.neighbours.dom();
    let order = nodes.to_seq();
    nodes.lemma_to_seq_to_set_id();
    assert forall|v: u64| ctx.neighbours.contains_key(v) implies order.contains(v) by {
        assert(order.to_set().contains(v));
    }
    search_ends_from(ctx, order, 0);
}

impl SearchContext {
    /// The search is between two different nodes, starts in the graph, and
    /// the graph has finitely many nodes.
    pub open spec fn valid(self) -> bool {
        self.start != self.target && self.neighbours.contains_key(self.start)
            && self.neighbours.dom().finite()
    }

    /// There is a road from `a` to `b` that can be taken: `b` is listed next
    /// to `a`, and the step can be taken.
    pub open spec fn road(self, a: u64, b: u64) -> bool {
        self.neighbours.contains_key(a) && self.neighbours[a].contains(b) && self.passable(a, b)
    }

    /// `path` leads from the start to the target over roads that can be
    /// taken.
    pub open spec fn connected_by(self, path: Seq<u64>) -> bool {
        &&& path.len() >= 1
        &&& path[0] == self.start
        &&& path.last() == self.target
        &&& forall|i: int| 0 <= i < path.len() - 1 ==> self.road(#[trigger] path[i], path[i + 1])
    }

    /// Some path leads from the start to the target.
    pub open spec fn connected(self) -> bool {
        exists|path: Seq<u64>| self.connected_by(path)
    }

    /// What holds of a search at every step: the start is reached at time
    /// zero and the target has no time; a node has a parent where it has a
    /// time, and the target has one once it is found; a road that can be taken
    /// leads from each parent to its child, and the parent was not reached
    /// later than the child; no entry of the frontier is earlier than the time
    /// of its node; and parent pointers lead from every node back to the
    /// start.
    pub open spec fn sound(self, s: SearchState) -> bool {
        &&& s.times.contains_key(self.start)
        &&& s.times[self.start] == 0
        &&& !s.times.contains_key(self.target)
        &&& s.parents.dom().finite()
        &&& forall|v: u64| #[trigger]
            s.parents.contains_key(v) <==> s.times.contains_key(v) || (s.found && v == self.target)
        &&& forall|v: u64| #[trigger]
            s.parents.contains_key(v) && v != self.start ==> self.road(s.parents[v], v)
                && s.times.contains_key(s.parents[v]) && (v != self.target ==> s.times[s.parents[v]]
                <= s.times[v])
        &&& forall|item: QueueItem| #[trigger]
            s.frontier.contains(item) ==> s.times.contains_key(item.node_id)
                && s.times[item.node_id] <= item.time_to_start && self.neighbours.contains_key(
                item.node_id,
            )
        &&& forall|v: u64| #[trigger]
            s.parents.contains_key(v) ==> exists|n: nat| ancestry(s.parents, self.start, v, n) is Some
    }
}

/// No node on the way back of a node was reached later than the node.
proof fn way_back_is_no_later(ctx: SearchContext, s: SearchState, child: u64, n: nat)
    requires
        ctx.sound(s),
        s.times.contains_key(child),
        ancestry(s.parents, ctx.start, child, n) is Some,
    ensures
        forall|i: int|
            0 <= i < (ancestry(s.parents, ctx.start, child, n)->0).len() ==> s.times.contains_key(
                #[trigger] (ancestry(s.parents, ctx.start, child, n)->0)[i],
            ) && s.times[(ancestry(s.parents, ctx.start, child, n)->0)[i]] <= s.times[child],
    decreases n,
{
    let chain = ancestry(s.parents, ctx.start, child, n)->0;
    if child != ctx.start {
        assert(s.parents.contains_key(child));
        let parent = s.parents[child];
        way_back_is_no_later(ctx, s, parent, (n - 1) as nat);
        let rest = ancestry(s.parents, ctx.start, parent, (n - 1) as nat)->0;
        assert(chain == seq![child] + rest);
        assert forall|i: int| 0 <= i < chain.len() implies s.times.contains_key(#[trigger] chain[i])
            && s.times[chain[i]] <= s.times[child] by {
            if i > 0 {
                assert(chain[i] == rest[i - 1]);
            }
        }
    }
}

/// Looking at one node next to a node that was reached keeps a search
/// sound.
proof fn relax_keeps_sound(ctx: SearchContext, s: SearchState, parent: u64, time: u64, child: u64)
    requires
        ctx.valid(),
        ctx.sound(s),
        !s.found,
        s.times.contains_key(parent),
        s.times[parent] <= time,
        ctx.neighbours.contains_key(parent),
        ctx.neighbours[parent].contains(child),
    ensures
        ctx.sound(ctx.relax(s, parent, time, child)),
        ctx.relax(s, parent, time, child).times.contains_key(parent),
        ctx.relax(s, parent, time, child).times[parent] == s.times[parent],
{
    let r = ctx.relax(s, parent, time, child);
    if r != s {
        let reached = ctx.time_through(parent, time, child);
        assert(reached >= time);
        assert(child != parent);
        assert(child != ctx.start);
        assert(r.parents == s.parents.insert(child, parent));
        assert(s.parents.contains_key(parent));
        let m = choose|m: nat| ancestry(s.parents, ctx.start, parent, m) is Some;
        let way = ancestry(s.parents, ctx.start, parent, m)->0;
        way_back_is_no_later(ctx, s, parent, m);
        if way.contains(child) {
            let i = choose|i: int| 0 <= i < way.len() && way[i] == child;
            assert(s.times.contains_key(way[i]));
            assert(false);
        }
        assert forall|v: u64| #[trigger] r.parents.contains_key(v) implies exists|n: nat|
            ancestry(r.parents, ctx.start, v, n) is Some by {
            if v == child {
                pointer_off_the_way(s.parents, ctx.start, parent, m, child, parent);
                assert(ancestry(r.parents, ctx.start, child, m + 1) is Some);
            } else {
                assert(s.parents.contains_key(v));
                let n = choose|n: nat| ancestry(s.parents, ctx.start, v, n) is Some;
                new_pointer_keeps_ways(s.parents, ctx.start, v, n, child, parent, m);
            }
        }
        assert forall|v: u64| #[trigger]
            r.parents.contains_key(v) && v != ctx.start implies ctx.road(r.parents[v], v)
            && r.times.contains_key(r.parents[v]) && (v != ctx.target ==> r.times[r.parents[v]]
            <= r.times[v]) by {
            if v != child {
                assert(s.parents.contains_key(v));
            }
        }
        assert forall|v: u64| #[trigger]
            r.parents.contains_key(v) <==> r.times.contains_key(v) || (r.found && v
                == ctx.target) by {
            if v != child {
                assert(s.parents.contains_key(v) <==> s.times.contains_key(v) || (s.found && v
                    == ctx.target));
            }
        }
        assert forall|item: QueueItem| #[trigger] r.frontier.contains(item) implies r.times.contains_key(
            item.node_id,
        ) && r.times[item.node_id] <= item.time_to_start && ctx.neighbours.contains_key(
            item.node_id,
        ) by {
            if child != ctx.target {
                let pushed = QueueItem {
                    cost: ctx.estimate(child, reached),
                    order_added: s.inserted,
                    time_to_start: reached,
                    node_id: child,
                };
                if item != pushed {
                    assert(s.frontier.contains(item));
                }
            }
        }
    }
}

/// Looking at a run of nodes next to a node that was reached keeps a
/// search sound.
proof fn expand_keeps_sound(
    ctx: SearchContext,
    s: SearchState,
    parent: u64,
    time: u64,
    children: Seq<u64>,
    from: int,
)
    requires
        ctx.valid(),
        ctx.sound(s),
        s.times.contains_key(parent),
        s.times[parent] <= time,
        ctx.neighbours.contains_key(parent),
        children == ctx.neighbours[parent],
    ensures
        ctx.sound(ctx.expand(s, parent, time, children, from)),
    decreases children.len() - from,
{
    if !(from < 0 || from >= children.len() || s.found) {
        relax_keeps_sound(ctx, s, parent, time, children[from]);
        expand_keeps_sound(
            ctx,
            ctx.relax(s, parent, time, children[from]),
            parent,
            time,
            children,
            from + 1,
        );
    }
}

/// A step keeps a search sound.
pub proof fn step_keeps_sound(ctx: SearchContext, s: SearchState)
    requires
        ctx.valid(),
        ctx.sound(s),
    ensures
        ctx.sound(ctx.step(s)),
{
    if !finished(s) {
        least_exists(s.frontier);
        let item = choose|x: QueueItem| is_least(s.frontier, x);
        let rest = SearchState { frontier: s.frontier.remove(item), ..s };
        assert forall|other: QueueItem| #[trigger] rest.frontier.contains(other) implies s.frontier.contains(
            other,
        ) by {
            assert(rest.frontier.count(other) <= s.frontier.count(other));
        }
        assert(ctx.sound(rest));
        if !ctx.stale(s, item) && ctx.neighbours.contains_key(item.node_id) {
            expand_keeps_sound(
                ctx,
                rest,
                item.node_id,
                item.time_to_start,
                ctx.neighbours[item.node_id],
                0,
            );
        }
    }
}

/// A search is sound after any number of steps.
pub proof fn search_is_sound(ctx: SearchContext, n: nat)
    requires
        ctx.valid(),
    ensures
        ctx.sound(ctx.run(n)),
    decreases n,
{
    if n == 0 {
        let s = ctx.initial();
        assert(s.parents.dom() =~= Set::<u64>::empty().insert(ctx.start));
        assert forall|v: u64| #[trigger] s.parents.contains_key(v) implies exists|n: nat|
            ancestry(s.parents, ctx.start, v, n) is Some by {
            assert(ancestry(s.parents, ctx.start, v, 0) is Some);
        }
        assert forall|item: QueueItem| #[trigger] s.frontier.contains(item) implies s.times.contains_key(
            item.node_id,
        ) && s.times[item.node_id] <= item.time_to_start && ctx.neighbours.contains_key(
            item.node_id,
        ) by {
            let first = QueueItem { cost: 0, order_added: 0, time_to_start: 0, node_id: ctx.start };
            if item != first {
                assert(Multiset::<QueueItem>::empty().count(item) == 0);
            }
        }
    } else {
        search_is_sound(ctx, (n - 1) as nat);
        step_keeps_sound(ctx, ctx.run((n - 1) as nat));
    }
}

/// The entries of the frontier are numbered: no two share an insertion
/// number, and every number is below the number of insertions so far.
pub open spec fn numbered(s: SearchState) -> bool {
    &&& distinctly_numbered(s.frontier)
    &&& forall|item: QueueItem| #[trigger] s.frontier.contains(item) ==> item.order_added < s.inserted
}

/// Looking at one node keeps the frontier numbered, and takes no
/// insertion back.
proof fn relax_keeps_numbered(ctx: SearchContext, s: SearchState, parent: u64, time: u64, child: u64)
    requires
        numbered(s),
    ensures
        numbered(ctx.relax(s, parent, time, child)),
        s.inserted <= ctx.relax(s, parent, time, child).inserted,
{
    let r = ctx.relax(s, parent, time, child);
    if r != s && !r.found {
        let pushed = QueueItem {
            cost: ctx.estimate(child, ctx.time_through(parent, time, child)),
            order_added: s.inserted,
            time_to_start: ctx.time_through(parent, time, child),
            node_id: child,
        };
        assert forall|item: QueueItem| #[trigger] r.frontier.contains(item) implies item == pushed
            || s.frontier.contains(item) by {}
    }
}

/// Looking at a run of nodes keeps the frontier numbered, and takes no
/// insertion back.
proof fn expand_keeps_numbered(
    ctx: SearchContext,
    s: SearchState,
    parent: u64,
    time: u64,
    children: Seq<u64>,
    from: int,
)
    requires
        numbered(s),
    ensures
        numbered(ctx.expand(s, parent, time, children, from)),
        s.inserted <= ctx.expand(s, parent, time, children, from).inserted,
    decreases children.len() - from,
{
    if !(from < 0 || from >= children.len() || s.found) {
        relax_keeps_numbered(ctx, s, parent, time, children[from]);
        expand_keeps_numbered(
            ctx,
            ctx.relax(s, parent, time, children[from]),
            parent,
            time,
            children,
            from + 1,
        );
    }
}

/// A step keeps the frontier numbered, and takes no insertion back.
proof fn step_keeps_numbered(ctx: SearchContext, s: SearchState)
    requires
        numbered(s),
    ensures
        numbered(ctx.step(s)),
        s.inserted <= ctx.step(s).inserted,
{
    if !finished(s) {
        least_exists(s.frontier);
        let item = choose|x: QueueItem| is_least(s.frontier, x);
        let rest = SearchState { frontier: s.frontier.remove(item), ..s };
        assert forall|other: QueueItem| #[trigger] rest.frontier.contains(other) implies s.frontier.contains(
            other,
        ) by {
            assert(rest.frontier.count(other) <= s.frontier.count(other));
        }
        assert(numbered(rest));
        expand_keeps_numbered(
            ctx,
            rest,
            item.node_id,
            item.time_to_start,
            ctx.neighbours[item.node_id],
            0,
        );
    }
}

/// At every step of a search no two entries of the frontier share an
/// insertion number. So the least entry, which is the one to leave, is the
/// only least entry.
pub proof fn frontier_is_numbered(ctx: SearchContext, n: nat)
    ensures
        numbered(ctx.run(n)),
        distinctly_numbered(ctx.run(n).frontier),
    decreases n,
{
    if n == 0 {
        let s = ctx.initial();
        let first = QueueItem { cost: 0, order_added: 0, time_to_start: 0, node_id: ctx.start };
        assert forall|item: QueueItem| #[trigger] s.frontier.contains(item) implies item == first by {
            if item != first {
                assert(Multiset::<QueueItem>::empty().count(item) == 0);
            }
        }
    } else {
        frontier_is_numbered(ctx, (n - 1) as nat);
        step_keeps_numbered(ctx, ctx.run((n - 1) as nat));
    }
}

/// An entry for the node waits in the frontier that is not stale.
pub open spec fn waiting(s: SearchState, node: u64) -> bool {
    exists|item: QueueItem|
        #[trigger] s.frontier.contains(item) && item.node_id == node && s.times.contains_key(node)
            && item.time_to_start == s.times[node]
}

impl SearchContext {
    /// Every node to which a road leads from `node` has a parent.
    pub open spec fn settled(self, s: SearchState, node: u64) -> bool {
        forall|c: u64| #[trigger] self.road(node, c) ==> s.parents.contains_key(c)
    }

    /// As long as the target is not found and the insertion numbers have
    /// not run out, every node that was reached waits in the frontier or is
    /// settled.
    pub open spec fn complete(self, s: SearchState) -> bool {
        !s.found && s.inserted < usize::MAX ==> forall|v: u64| #[trigger]
            s.times.contains_key(v) ==> waiting(s, v) || self.settled(s, v)
    }

    /// The same while the nodes next to `node` are looked at: the others
    /// wait or are settled, and the first `from` nodes next to `node` have a
    /// parent where the step to them can be taken.
    pub open spec fn complete_but(
        self,
        s: SearchState,
        node: u64,
        children: Seq<u64>,
        from: int,
    ) -> bool {
        !s.found && s.inserted < usize::MAX ==> {
            &&& forall|v: u64| #[trigger]
                s.times.contains_key(v) && v != node ==> waiting(s, v) || self.settled(s, v)
            &&& forall|j: int|
                0 <= j < from && j < children.len() && self.passable(node, #[trigger] children[j])
                    ==> s.parents.contains_key(children[j])
        }
    }
}

/// Looking at one more node keeps what was done complete.
proof fn relax_keeps_complete(
    ctx: SearchContext,
    s: SearchState,
    parent: u64,
    time: u64,
    children: Seq<u64>,
    from: int,
)
    requires
        ctx.sound(s),
        !s.found,
        0 <= from < children.len(),
        ctx.complete_but(s, parent, children, from),
    ensures
        ctx.complete_but(ctx.relax(s, parent, time, children[from]), parent, children, from + 1),
{
    let child = children[from];
    let r = ctx.relax(s, parent, time, child);
    if !r.found && r.inserted < usize::MAX {
        assert(s.inserted <= r.inserted);
        if r == s {
            if ctx.passable(parent, child) {
                assert(s.parents.contains_key(child));
            }
        } else {
            let reached = ctx.time_through(parent, time, child);
            let pushed = QueueItem {
                cost: ctx.estimate(child, reached),
                order_added: s.inserted,
                time_to_start: reached,
                node_id: child,
            };
            assert(r.frontier.contains(pushed));
            assert forall|v: u64| #[trigger] r.times.contains_key(v) && v != parent implies waiting(
                r,
                v,
            ) || ctx.settled(r, v) by {
                if v == child {
                    assert(waiting(r, v));
                } else {
                    assert(s.times.contains_key(v));
                    if waiting(s, v) {
                        let item = choose|item: QueueItem|
                            #[trigger] s.frontier.contains(item) && item.node_id == v
                                && s.times.contains_key(v) && item.time_to_start == s.times[v];
                        assert(r.frontier.contains(item));
                    } else {
                        assert(ctx.settled(s, v));
                        assert forall|c: u64| #[trigger] ctx.road(v, c) implies r.parents.contains_key(
                            c,
                        ) by {
                            assert(s.parents.contains_key(c));
                        }
                    }
                }
            }
            assert forall|j: int|
                0 <= j < from + 1 && j < children.len() && ctx.passable(
                    parent,
                    #[trigger] children[j],
                ) implies r.parents.contains_key(children[j]) by {
                if j < from {
                    assert(s.parents.contains_key(children[j]));
                }
            }
        }
    }
}

/// After all the nodes next to a node were looked at, nothing is left to
/// do for the node.
proof fn expand_keeps_complete(
    ctx: SearchContext,
    s: SearchState,
    parent: u64,
    time: u64,
    children: Seq<u64>,
    from: int,
)
    requires
        ctx.valid(),
        ctx.sound(s),
        s.times.contains_key(parent),
        s.times[parent] <= time,
        ctx.neighbours.contains_key(parent),
        children == ctx.neighbours[parent],
        0 <= from <= children.len(),
        ctx.complete_but(s, parent, children, from),
    ensures
        ctx.complete_but(
            ctx.expand(s, parent, time, children, from),
            parent,
            children,
            children.len() as int,
        ),
    decreases children.len() - from,
{
    if !(from >= children.len() || s.found) {
        relax_keeps_sound(ctx, s, parent, time, children[from]);
        relax_keeps_complete(ctx, s, parent, time, children, from);
        expand_keeps_complete(
            ctx,
            ctx.relax(s, parent, time, children[from]),
            parent,
            time,
            children,
            from + 1,
        );
    }
}

/// Looking at a run of nodes takes no insertion back.
proof fn expand_counts_on(
    ctx: SearchContext,
    s: SearchState,
    parent: u64,
    time: u64,
    children: Seq<u64>,
    from: int,
)
    ensures
        s.inserted <= ctx.expand(s, parent, time, children, from).inserted,
    decreases children.len() - from,
{
    if !(from < 0 || from >= children.len() || s.found) {
        expand_counts_on(
            ctx,
            ctx.relax(s, parent, time, children[from]),
            parent,
            time,
            children,
            from + 1,
        );
    }
}

/// A step keeps a search complete.
proof fn step_keeps_complete(ctx: SearchContext, s: SearchState)
    requires
        ctx.valid(),
        ctx.sound(s),
        ctx.complete(s),
    ensures
        ctx.complete(ctx.step(s)),
{
    if !finished(s) {
        least_exists(s.frontier);
        let item = choose|x: QueueItem| is_least(s.frontier, x);
        let rest = SearchState { frontier: s.frontier.remove(item), ..s };
        let node = item.node_id;
        let children = ctx.neighbours[node];
        expand_counts_on(ctx, rest, node, item.time_to_start, children, 0);
        if s.inserted == usize::MAX {
            return ;
        }
        assert forall|other: QueueItem| #[trigger] rest.frontier.contains(other) implies s.frontier.contains(
            other,
        ) by {
            assert(rest.frontier.count(other) <= s.frontier.count(other));
        }
        assert(ctx.sound(rest));
        assert forall|v: u64| #[trigger] rest.times.contains_key(v) && v != node implies waiting(
            rest,
            v,
        ) || ctx.settled(rest, v) by {
            if waiting(s, v) {
                let other = choose|other: QueueItem|
                    #[trigger] s.frontier.contains(other) && other.node_id == v
                        && s.times.contains_key(v) && other.time_to_start == s.times[v];
                assert(rest.frontier.count(other) == s.frontier.count(other));
                assert(rest.frontier.contains(other));
            } else {
                assert(ctx.settled(s, v));
                assert forall|c: u64| #[trigger] ctx.road(v, c) implies rest.parents.contains_key(
                    c,
                ) by {}
            }
        }
        assert(ctx.complete_but(rest, node, children, 0));
        let t = ctx.step(s);
        if ctx.stale(s, item) {
            assert forall|v: u64| #[trigger] t.times.contains_key(v) implies waiting(t, v)
                || ctx.settled(t, v) by {
                if v == node {
                    if waiting(s, v) {
                        let fresh = choose|fresh: QueueItem|
                            #[trigger] s.frontier.contains(fresh) && fresh.node_id == v
                                && s.times.contains_key(v) && fresh.time_to_start == s.times[v];
                        assert(fresh != item);
                        assert(rest.frontier.count(fresh) == s.frontier.count(fresh));
                        assert(rest.frontier.contains(fresh));
                    } else {
                        assert(ctx.settled(s, v));
                        assert forall|c: u64| #[trigger] ctx.road(v, c) implies t.parents.contains_key(
                            c,
                        ) by {}
                    }
                }
            }
            return ;
        }
        expand_keeps_complete(ctx, rest, node, item.time_to_start, children, 0);
        expand_keeps_sound(ctx, rest, node, item.time_to_start, children, 0);
        if !t.found && t.inserted < usize::MAX {
            assert forall|v: u64| #[trigger] t.times.contains_key(v) implies waiting(t, v)
                || ctx.settled(t, v) by {
                if v == node {
                    assert forall|c: u64| #[trigger] ctx.road(node, c) implies t.parents.contains_key(
                        c,
                    ) by {
                        let j = choose|j: int| 0 <= j < children.len() && children[j] == c;
                        assert(ctx.passable(node, children[j]));
                    }
                }
            }
        }
    }
}

/// A search is complete after any number of steps.
proof fn search_is_complete(ctx: SearchContext, n: nat)
    requires
        ctx.valid(),
    ensures
        ctx.sound(ctx.run(n)),
        ctx.complete(ctx.run(n)),
    decreases n,
{
    search_is_sound(ctx, n);
    if n == 0 {
        let s = ctx.initial();
        let first = QueueItem { cost: 0, order_added: 0, time_to_start: 0, node_id: ctx.start };
        assert(s.frontier.contains(first));
        assert forall|v: u64| #[trigger] s.times.contains_key(v) implies waiting(s, v) by {
            assert(v == ctx.start);
        }
    } else {
        search_is_complete(ctx, (n - 1) as nat);
        step_keeps_complete(ctx, ctx.run((n - 1) as nat));
    }
}

/// Every node of a path from the start was reached by a search that has
/// ended without finding the target.
proof fn path_was_reached(ctx: SearchContext, s: SearchState, path: Seq<u64>, upto: int)
    requires
        ctx.sound(s),
        ctx.complete(s),
        finished(s),
        !s.found,
        s.inserted < usize::MAX,
        ctx.connected_by(path),
        0 <= upto < path.len(),
    ensures
        s.times.contains_key(path[upto]),
    decreases upto,
{
    if upto > 0 {
        path_was_reached(ctx, s, path, upto - 1);
        let v = path[upto - 1];
        assert(s.times.contains_key(v));
        if waiting(s, v) {
            let item = choose|item: QueueItem|
                #[trigger] s.frontier.contains(item) && item.node_id == v && s.times.contains_key(v)
                    && item.time_to_start == s.times[v];
            assert(s.frontier.len() > 0) by {
                if s.frontier.len() == 0 {
                    assert(s.frontier =~= Multiset::<QueueItem>::empty());
                }
            }
        }
        assert(ctx.settled(s, v));
        assert(ctx.road(path[upto - 1], path[upto - 1 + 1]));
        assert(s.parents.contains_key(path[upto]));
    }
}

/// The way back from a target that was found, turned round, is a path
/// from the start to the target.
proof fn found_target_is_connected(ctx: SearchContext, s: SearchState)
    requires
        ctx.sound(s),
        s.found,
    ensures
        ctx.connected(),
{
    assert(s.parents.contains_key(ctx.target));
    let n = choose|n: nat| ancestry(s.parents, ctx.start, ctx.target, n) is Some;
    let chain = ancestry(s.parents, ctx.start, ctx.target, n)->0;
    way_back_follows_parents(s.parents, ctx.start, ctx.target, n);
    let path = chain.reverse();
    assert forall|i: int| 0 <= i < path.len() - 1 implies ctx.road(#[trigger] path[i], path[i + 1]) by {
        let k = chain.len() - 2 - i;
        assert(path[i] == chain[k + 1]);
        assert(path[i + 1] == chain[k]);
        assert(chain[k] != ctx.start && s.parents.contains_key(chain[k]));
    }
    assert(path[0] == chain[chain.len() - 1]);
    assert(path[path.len() - 1] == chain[0]);
    assert(ctx.connected_by(path));
}

/// A search finds the target only where a path leads from the start to
/// the target over roads that can be taken, and wherever one does, unless it
/// has run out of insertion numbers. Where the two are not connected the
/// search ends all the same, without a result.
pub proof fn search_finds_what_is_connected(ctx: SearchContext)
    requires
        ctx.valid(),
    ensures
        exists|n: nat| ctx.ends_within(n),
        ctx.sound(ctx.outcome()),
        ctx.outcome().found ==> ctx.connected(),
        ctx.connected() && ctx.outcome().inserted < usize::MAX ==> ctx.outcome().found,
{
    search_always_ends(ctx);
    let n = choose|n: nat| ctx.ends_within(n);
    search_is_complete(ctx, n);
    let s = ctx.outcome();
    if s.found {
        found_target_is_connected(ctx, s);
    } else if ctx.connected() && s.inserted < usize::MAX {
        let path = choose|path: Seq<u64>| ctx.connected_by(path);
        path_was_reached(ctx, s, path, path.len() - 1);
    }
}

} // verus!
