//! What to call a node.

use crate::osm_parsing::Node;
use vstd::prelude::*;

verus! {

/// The name of a node: what its `name` tag says or, without one, street and
/// house number with a space between them, where it has both.
pub open spec fn spec_name_or_address(tags: Map<Seq<char>, Seq<char>>) -> Option<Seq<char>> {
    if tags.contains_key("name"@) {
        Some(tags["name"@])
    } else if tags.contains_key("addr:street"@) && tags.contains_key("addr:housenumber"@) {
        Some(tags["addr:street"@] + " "@ + tags["addr:housenumber"@])
    } else {
        None
    }
}

pub fn node_name_or_address(node: &Node) -> (r: Option<String>)
    ensures
        match r {
            Some(name) => spec_name_or_address(node.tags@) == Some(name@),
            None => spec_name_or_address(node.tags@) is None,
        },
{
    if let Some(landmark_name) = node.tags.get("name") {
        return Some(landmark_name.clone());
    }
    if let Some(street_name) = node.tags.get("addr:street") {
        if let Some(house_number) = node.tags.get("addr:housenumber") {
            let mut address = street_name.clone();
            address.push_str(" ");
            address.push_str(house_number.as_str());
            return Some(address);
        }
    }
    None
}

} // verus!
