//! Making nodes and ways from the attributes of their elements.

use crate::decimal::{
    parse_signed_fixed, parse_u64, spec_parse_signed_fixed, spec_parse_u64,
};
use crate::osm_parsing::{Coordinate, IngestError, Node, Way};
use crate::tags::Tags;
use crate::text::{decimal_text, push_decimal};
use vstd::pervasive::unreached;
use vstd::prelude::*;
use vstd::string::StringSliceAdditionalSpecFns;
use vstd::utf8::encode_utf8;

verus! {

/// The identifier that the attributes of an element give.
pub open spec fn spec_identifier(attributes: Map<Seq<char>, Seq<char>>) -> Result<u64, IngestError> {
    if !attributes.contains_key("id"@) {
        Err(IngestError::MissingAttribute)
    } else {
        match spec_parse_u64(encode_utf8(attributes["id"@])) {
            Some(id) => Ok(id),
            None => Err(IngestError::InvalidNumber),
        }
    }
}

/// The angle that the attribute `name` gives, in billionths of a degree.
/// The angle is to be written as plain decimal text; notation with an
/// exponent counts as no number.
pub open spec fn spec_angle(attributes: Map<Seq<char>, Seq<char>>, name: Seq<char>) -> Result<
    i64,
    IngestError,
> {
    if !attributes.contains_key(name) {
        Err(IngestError::MissingAttribute)
    } else {
        match spec_parse_signed_fixed(encode_utf8(attributes[name])) {
            Some(angle) => Ok(angle),
            None => Err(IngestError::InvalidNumber),
        }
    }
}

/// Identifier and position that the attributes of a point element give.
/// They are read in the order identifier, latitude, longitude, and the
/// first that is missing or is no number decides the error.
pub open spec fn spec_node_attributes(attributes: Map<Seq<char>, Seq<char>>) -> Result<
    (u64, Coordinate),
    IngestError,
> {
    match spec_identifier(attributes) {
        Err(e) => Err(e),
        Ok(id) => match spec_angle(attributes, "lat"@) {
            Err(e) => Err(e),
            Ok(latitude) => match spec_angle(attributes, "lon"@) {
                Err(e) => Err(e),
                Ok(longitude) => Ok((id, Coordinate { longitude, latitude })),
            },
        },
    }
}

/// Reads the identifier of an element.
fn identifier(attributes: &Tags) -> (r: Result<u64, IngestError>)
    ensures
        r == spec_identifier(attributes@),
{
    match attributes.get("id") {
        None => Err(IngestError::MissingAttribute),
        Some(text) => match parse_u64(text.as_str()) {
            Some(id) => Ok(id),
            None => Err(IngestError::InvalidNumber),
        },
    }
}

/// Reads the attribute `name` as an angle.
fn angle(attributes: &Tags, name: &str) -> (r: Result<i64, IngestError>)
    ensures
        r == spec_angle(attributes@, name@),
{
    match attributes.get(name) {
        None => Err(IngestError::MissingAttribute),
        Some(text) => match parse_signed_fixed(text.as_str()) {
            Some(angle) => Ok(angle),
            None => Err(IngestError::InvalidNumber),
        },
    }
}

impl Node {
    /// The node has this identifier and position, and nothing else yet.
    pub open spec fn is_fresh(&self, id: u64, coordinate: Coordinate) -> bool {
        &&& self.id == id
        &&& self.coordinate == coordinate
        &&& self.tags@ == Map::<Seq<char>, Seq<char>>::empty()
        &&& self.ways@ == Seq::<u64>::empty()
        &&& self.nodes@ == Seq::<u64>::empty()
    }

    /// Makes a node from the attributes of a point element that give its
    /// identifier and its position.
    pub fn new(node_hashmap: &Tags) -> (r: Node)
        requires
            spec_node_attributes(node_hashmap@) is Ok,
        ensures
            r.is_fresh(
                spec_node_attributes(node_hashmap@)->Ok_0.0,
                spec_node_attributes(node_hashmap@)->Ok_0.1,
            ),
    {
        match Node::try_new(node_hashmap) {
            Ok(node) => node,
            Err(_) => unreached(),
        }
    }

    /// Makes a node from the attributes of a point element, or says what is
    /// wrong with them.
    pub fn try_new(node_hashmap: &Tags) -> (r: Result<Node, IngestError>)
        ensures
            match r {
                Ok(node) => match spec_node_attributes(node_hashmap@) {
                    Ok((id, coordinate)) => node.is_fresh(id, coordinate),
                    Err(_) => false,
                },
                Err(e) => spec_node_attributes(node_hashmap@) == Err::<(u64, Coordinate), _>(e),
            },
    {
        let id = match identifier(node_hashmap) {
            Ok(id) => id,
            Err(e) => {
                return Err(e);
            },
        };
        let latitude = match angle(node_hashmap, "lat") {
            Ok(latitude) => latitude,
            Err(e) => {
                return Err(e);
            },
        };
        let longitude = match angle(node_hashmap, "lon") {
            Ok(longitude) => longitude,
            Err(e) => {
                return Err(e);
            },
        };
        Ok(
            Node {
                id,
                coordinate: Coordinate { longitude, latitude },
                tags: Tags::new(),
                ways: Vec::new(),
                nodes: Vec::new(),
            },
        )
    }

    /// The address of the node on the public map.
    pub fn map_link(&self) -> (r: String)
        ensures
            r@ == "https://www.openstreetmap.org/node/"@ + decimal_text(self.id as nat),
    {
        let mut link = "https://www.openstreetmap.org/node/".to_owned();
        push_decimal(&mut link, self.id);
        link
    }
}

impl Way {
    /// The way has this identifier, and nothing else yet.
    pub open spec fn is_fresh(&self, id: u64) -> bool {
        &&& self.id == id
        &&& self.tags@ == Map::<Seq<char>, Seq<char>>::empty()
        &&& self.node_ids@ == Seq::<u64>::empty()
    }

    /// Makes a way from the attributes of a polyline element that give its
    /// identifier.
    pub fn new(way_hashmap: &Tags) -> (r: Way)
        requires
            spec_identifier(way_hashmap@) is Ok,
        ensures
            r.is_fresh(spec_identifier(way_hashmap@)->Ok_0),
    {
        match Way::try_new(way_hashmap) {
            Ok(way) => way,
            Err(_) => unreached(),
        }
    }

    /// Makes a way from the attributes of a polyline element, or says what
    /// is wrong with them.
    pub fn try_new(way_hashmap: &Tags) -> (r: Result<Way, IngestError>)
        ensures
            match r {
                Ok(way) => match spec_identifier(way_hashmap@) {
                    Ok(id) => way.is_fresh(id),
                    Err(_) => false,
                },
                Err(e) => spec_identifier(way_hashmap@) == Err::<u64, _>(e),
            },
    {
        match identifier(way_hashmap) {
            Ok(id) => Ok(Way { id, node_ids: Vec::new(), tags: Tags::new() }),
            Err(e) => Err(e),
        }
    }

    /// The address of the way on the public map.
    pub fn map_link(&self) -> (r: String)
        ensures
            r@ == "https://www.openstreetmap.org/way/"@ + decimal_text(self.id as nat),
    {
        let mut link = "https://www.openstreetmap.org/way/".to_owned();
        push_decimal(&mut link, self.id);
        link
    }
}

} // verus!
