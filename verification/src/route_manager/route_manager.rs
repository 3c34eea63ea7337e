use crate::route_manager::{Route, RouteComponent};
use crate::units::{add_capped, spec_add_capped};
use vstd::multiset::*;
use vstd::prelude::*;
use vstd::seq_lib::*;

verus! {

/// Duration of one leg: the time on the road, or the wait and the ride.
pub open spec fn component_duration(component: RouteComponent) -> u64 {
    match component {
        RouteComponent::Path(path_result) => path_result.path_time,
        RouteComponent::PublicTransport(public_transport) => spec_add_capped(
            public_transport.journey_duration,
            public_transport.waiting_time,
        ),
    }
}

/// Duration of the first `legs` legs, added up and held at the largest
/// representable duration.
pub open spec fn duration_of(components: Seq<RouteComponent>, legs: int) -> u64
    decreases legs,
{
    if legs <= 0 {
        0
    } else {
        spec_add_capped(duration_of(components, legs - 1), component_duration(components[legs - 1]))
    }
}

impl Route {
    pub fn new(components: Vec<RouteComponent>) -> (r: Self)
        ensures
            r.components == components,
    {
        Route { components }
    }

    /// The journey without legs.
    pub fn default() -> (r: Self)
        ensures
            r.components@.len() == 0,
    {
        let components: Vec<RouteComponent> = Vec::new();
        Route { components }
    }

    /// Duration of the whole journey.
    pub open spec fn spec_total_duration(&self) -> u64 {
        duration_of(self.components@, self.components@.len() as int)
    }

    pub fn total_duration(&self) -> (r: u64)
        ensures
            r == self.spec_total_duration(),
    {
        let mut total_duration: u64 = 0;
        let mut i: usize = 0;
        while i < self.components.len()
            invariant
                i <= self.components@.len(),
                total_duration == duration_of(self.components@, i as int),
            decreases self.components@.len() - i,
        {
            let duration = match &self.components[i] {
                RouteComponent::Path(path_result) => path_result.path_time,
                RouteComponent::PublicTransport(public_transport) => add_capped(
                    public_transport.journey_duration,
                    public_transport.waiting_time,
                ),
            };
            total_duration = add_capped(total_duration, duration);
            i += 1;
        }
        total_duration
    }
}

/// The journeys are in the order of their durations, shortest first.
pub open spec fn ranked(routes: Seq<Route>) -> bool {
    forall|i: int, j: int|
        0 <= i < j < routes.len() ==> (#[trigger] routes[i]).spec_total_duration() <= (
        #[trigger] routes[j]).spec_total_duration()
}

/// Puts journeys in the order of their durations, shortest first. The
/// result holds the journeys that came, each as often as it came.
pub fn rank_routes(routes: Vec<Route>) -> (r: Vec<Route>)
    ensures
        ranked(r@),
        r@.to_multiset() == routes@.to_multiset(),
{
    let mut waiting = routes;
    let mut sorted: Vec<Route> = Vec::new();
    proof {
        sorted@.to_multiset_ensures();
        assert(sorted@.to_multiset().len() == 0);
        assert(sorted@.to_multiset() =~= Multiset::<Route>::empty());
        assert(sorted@.to_multiset().add(waiting@.to_multiset()) =~= routes@.to_multiset());
    }
    while waiting.len() > 0
        invariant
            ranked(sorted@),
            sorted@.to_multiset().add(waiting@.to_multiset()) == routes@.to_multiset(),
        decreases waiting@.len(),
    {
        let ghost waiting_before = waiting@;
        let ghost sorted_before = sorted@;
        let route = waiting.remove(0);
        let duration = route.total_duration();
        let mut at: usize = 0;
        while at < sorted.len() && sorted[at].total_duration() <= duration
            invariant
                at <= sorted@.len(),
                forall|i: int| 0 <= i < at ==> (#[trigger] sorted@[i]).spec_total_duration() <= duration,
            decreases sorted@.len() - at,
        {
            at += 1;
        }
        sorted.insert(at, route);
        proof {
            broadcast use to_multiset_insert, to_multiset_remove;

            assert(waiting@ == waiting_before.remove(0));
            assert(waiting@.to_multiset() =~= waiting_before.to_multiset().remove(route));
            assert(sorted@ == sorted_before.insert(at as int, route));
            assert(sorted@.to_multiset() =~= sorted_before.to_multiset().insert(route));
            assert(waiting_before.to_multiset().count(route) > 0) by {
                waiting_before.to_multiset_ensures();
                assert(waiting_before[0] == route);
                assert(waiting_before.contains(route));
            }
            assert(sorted@.to_multiset().add(waiting@.to_multiset()) =~= sorted_before.to_multiset().add(
                waiting_before.to_multiset(),
            ));
            assert forall|i: int, j: int| 0 <= i < j < sorted@.len() implies (
            #[trigger] sorted@[i]).spec_total_duration() <= (
            #[trigger] sorted@[j]).spec_total_duration() by {
                let a = if i < at {
                    i
                } else {
                    i - 1
                };
                let b = if j < at {
                    j
                } else {
                    j - 1
                };
                if i != at && j != at {
                    assert(sorted@[i] == sorted_before[a]);
                    assert(sorted@[j] == sorted_before[b]);
                } else if i == at {
                    assert(sorted@[j] == sorted_before[b]);
                } else {
                    assert(sorted@[i] == sorted_before[a]);
                }
            }
        }
    }
    proof {
        waiting@.to_multiset_ensures();
        assert(waiting@.to_multiset().len() == 0);
        assert(waiting@.to_multiset() =~= Multiset::<Route>::empty());
        assert(sorted@.to_multiset() =~= routes@.to_multiset());
    }
    sorted
}

} // verus!
