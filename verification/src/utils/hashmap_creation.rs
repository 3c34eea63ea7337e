//! Making the graph that the searches work on out of a graph as it was
//! read.

use crate::data_handling::data_handling::{links, memberships, same_feature};
use crate::data_handling::filtering::{kept_nodes, kept_ways, matched_nodes};
use crate::data_handling::{FilterSet, FilterSubset, OSMData};
use crate::utils::filtering_utilities::{
    filter_amenities, filter_bus_stops, filter_highways, filter_stations, texts,
};
use vstd::prelude::*;

verus! {

/// `rules` are the rules that make the working graph: roads, every
/// free-standing point feature, stations, amenities and bus stops.
pub open spec fn standard_rules(rules: Seq<FilterSet>) -> bool {
    &&& rules.len() == 5
    &&& rules[0].filter_key@ == "highway"@
    &&& rules[0].filter_subset == FilterSubset::Roads
    &&& texts(rules[0].filter_values@) == seq![
        "motorway"@,
        "trunk"@,
        "primary"@,
        "secondary"@,
        "tertiary"@,
        "unclassified"@,
        "residential"@,
        "motorway_link"@,
        "trunk_link"@,
        "primary_link"@,
        "secondary_link"@,
        "tertiary_link"@,
        "living_street"@,
    ]
    &&& rules[1].filter_subset == FilterSubset::AllLandmarks
    &&& rules[2].filter_key@ == "public_transport"@
    &&& rules[2].filter_subset.names_landmark("stations"@)
    &&& texts(rules[2].filter_values@) == seq!["station"@]
    &&& rules[3].filter_key@ == "amenity"@
    &&& rules[3].filter_subset.names_landmark("amenity"@)
    &&& texts(rules[3].filter_values@) == seq!["kindergarten"@, "hospital"@, "school"@, "university"@]
    &&& rules[4].filter_key@ == "highway"@
    &&& rules[4].filter_subset.names_landmark("bus_stop"@)
    &&& texts(rules[4].filter_values@) == seq!["bus_stop"@]
}

/// The rules that make the working graph.
pub fn standard_filters() -> (r: Vec<FilterSet>)
    ensures
        standard_rules(r@),
{
    let mut filters: Vec<FilterSet> = Vec::new();
    filters.push(filter_highways());
    filters.push(FilterSet::default());
    filters.push(filter_stations());
    filters.push(filter_amenities());
    filters.push(filter_bus_stops());
    filters
}

/// Prunes a graph to what the standard rules select, and links it anew:
/// what `filter` does with those five rules.
pub fn recreate_hashmap(osm_data: &mut OSMData)
    ensures
        exists|rules: Seq<FilterSet>|
            {
                &&& #[trigger] standard_rules(rules)
                &&& final(osm_data).node_map@.dom() == old(osm_data).node_map@.dom().intersect(
                    kept_nodes(old(osm_data).node_map@, old(osm_data).way_map@, rules),
                )
                &&& final(osm_data).way_map@ == old(osm_data).way_map@.restrict(
                    kept_ways(old(osm_data).way_map@, rules),
                )
                &&& final(osm_data).node_subsets@.len() == old(osm_data).node_subsets@.len() + 5
                &&& forall|i: int|
                    0 <= i < old(osm_data).node_subsets@.len() ==> final(osm_data).node_subsets@[i]
                        == old(osm_data).node_subsets@[i]
                &&& forall|i: int|
                    #![trigger rules[i]]
                    0 <= i < 5 ==> {
                        let subset = final(osm_data).node_subsets@[old(osm_data).node_subsets@.len()
                            + i];
                        &&& subset.filter_subset == rules[i].filter_subset
                        &&& subset.node_subset@ == matched_nodes(
                            old(osm_data).node_map@,
                            old(osm_data).way_map@,
                            &rules[i],
                        )
                    }
            },
        exists|order: Seq<u64>|
            {
                &&& order.no_duplicates()
                &&& order.to_set() == final(osm_data).way_map@.dom()
                &&& forall|n: u64| #[trigger]
                    final(osm_data).node_map@.contains_key(n) ==> {
                        &&& same_feature(final(osm_data).node_map@[n], old(osm_data).node_map@[n])
                        &&& final(osm_data).node_map@[n].ways@ == memberships(
                            final(osm_data).way_map@,
                            order,
                            n,
                            order.len() as int,
                        )
                        &&& final(osm_data).node_map@[n].nodes@ == links(
                            final(osm_data).way_map@,
                            order,
                            n,
                            order.len() as int,
                        )
                    }
            },
        forall|n: u64, other: Seq<u64>|
            #![trigger links(final(osm_data).way_map@, other, n, other.len() as int)]
            final(osm_data).node_map@.contains_key(n) && other.no_duplicates() && other.to_set()
                == final(osm_data).way_map@.dom() ==> final(osm_data).node_map@[n].nodes@.to_multiset()
                == links(final(osm_data).way_map@, other, n, other.len() as int).to_multiset(),
        forall|n: u64, other: Seq<u64>|
            #![trigger memberships(final(osm_data).way_map@, other, n, other.len() as int)]
            final(osm_data).node_map@.contains_key(n) && other.no_duplicates() && other.to_set()
                == final(osm_data).way_map@.dom() ==> final(osm_data).node_map@[n].ways@.to_multiset()
                == memberships(
                final(osm_data).way_map@,
                other,
                n,
                other.len() as int,
            ).to_multiset(),
        forall|w: u64, i: int|
            #![trigger final(osm_data).way_map@[w].node_ids@[i]]
            final(osm_data).way_map@.contains_key(w) && 0 <= i && i + 1 < final(osm_data).way_map@[w].node_ids@.len() ==> {
                let a = final(osm_data).way_map@[w].node_ids@[i];
                let b = final(osm_data).way_map@[w].node_ids@[i + 1];
                &&& final(osm_data).node_map@.contains_key(a) ==> final(osm_data).node_map@[a].nodes@.contains(b)
                &&& final(osm_data).node_map@.contains_key(b) ==> final(osm_data).node_map@[b].nodes@.contains(a)
            },
{
    let filters = standard_filters();
    let ghost rules = filters@;
    osm_data.filter(filters);
    proof {
        assert(standard_rules(rules));
    }
}

} // verus!
