//! The filter rules in common use.

use crate::data_handling::{FilterSet, FilterSubset};
use vstd::prelude::*;

verus! {

/// The contents of a list of texts.
pub open spec fn texts(values: Seq<String>) -> Seq<Seq<char>> {
    Seq::new(values.len(), |i: int| values[i]@)
}

/// The rule for roads: ways whose `highway` tag names a kind of road that
/// carries traffic.
pub fn filter_highways() -> (r: FilterSet)
    ensures
        r.filter_key@ == "highway"@,
        r.filter_subset == FilterSubset::Roads,
        texts(r.filter_values@) == seq![
            "motorway"@,
            "trunk"@,
            "primary"@,
            "secondary"@,
            "tertiary"@,
            "unclassified"@,
            "residential"@,
            "motorway_link"@,
            "trunk_link"@,
            "primary_link"@,
            "secondary_link"@,
            "tertiary_link"@,
            "living_street"@,
        ],
{
    let filter_key = "highway".to_owned();
    let mut filter_values: Vec<String> = Vec::new();
    filter_values.push("motorway".to_owned());
    filter_values.push("trunk".to_owned());
    filter_values.push("primary".to_owned());
    filter_values.push("secondary".to_owned());
    filter_values.push("tertiary".to_owned());
    filter_values.push("unclassified".to_owned());
    filter_values.push("residential".to_owned());
    filter_values.push("motorway_link".to_owned());
    filter_values.push("trunk_link".to_owned());
    filter_values.push("primary_link".to_owned());
    filter_values.push("secondary_link".to_owned());
    filter_values.push("tertiary_link".to_owned());
    filter_values.push("living_street".to_owned());
    let filter_subset = FilterSubset::Roads;
    proof {
        assert(texts(filter_values@) =~= seq![
            "motorway"@,
            "trunk"@,
            "primary"@,
            "secondary"@,
            "tertiary"@,
            "unclassified"@,
            "residential"@,
            "motorway_link"@,
            "trunk_link"@,
            "primary_link"@,
            "secondary_link"@,
            "tertiary_link"@,
            "living_street"@,
        ]);
    }
    FilterSet { filter_key, filter_values, filter_subset }
}

/// The rule for stations: nodes tagged as a station of public transport.
pub fn filter_stations() -> (r: FilterSet)
    ensures
        r.filter_key@ == "public_transport"@,
        r.filter_subset.names_landmark("stations"@),
        texts(r.filter_values@) == seq!["station"@],
{
    let filter_key = "public_transport".to_owned();
    let mut filter_values: Vec<String> = Vec::new();
    filter_values.push("station".to_owned());
    let filter_subset = FilterSubset::Landmark("stations".to_owned());
    proof {
        assert(texts(filter_values@) =~= seq!["station"@]);
    }
    FilterSet { filter_key, filter_values, filter_subset }
}

/// The rule for amenities: kindergartens, hospitals, schools and
/// universities.
pub fn filter_amenities() -> (r: FilterSet)
    ensures
        r.filter_key@ == "amenity"@,
        r.filter_subset.names_landmark("amenity"@),
        texts(r.filter_values@) == seq!["kindergarten"@, "hospital"@, "school"@, "university"@],
{
    let filter_key = "amenity".to_owned();
    let mut filter_values: Vec<String> = Vec::new();
    filter_values.push("kindergarten".to_owned());
    filter_values.push("hospital".to_owned());
    filter_values.push("school".to_owned());
    filter_values.push("university".to_owned());
    let filter_subset = FilterSubset::Landmark("amenity".to_owned());
    proof {
        assert(texts(filter_values@) =~= seq![
            "kindergarten"@,
            "hospital"@,
            "school"@,
            "university"@,
        ]);
    }
    FilterSet { filter_key, filter_values, filter_subset }
}

/// The rule for bus stops.
pub fn filter_bus_stops() -> (r: FilterSet)
    ensures
        r.filter_key@ == "highway"@,
        r.filter_subset.names_landmark("bus_stop"@),
        texts(r.filter_values@) == seq!["bus_stop"@],
{
    let filter_key: String = "highway".to_owned();
    let mut filter_values: Vec<String> = Vec::new();
    filter_values.push("bus_stop".to_owned());
    let filter_subset = FilterSubset::Landmark("bus_stop".to_owned());
    proof {
        assert(texts(filter_values@) =~= seq!["bus_stop"@]);
    }
    FilterSet { filter_key, filter_values, filter_subset }
}

} // verus!
