//! Reading a map extract, one element event at a time.
//!
//! Whoever holds the document hands its events over in document order:
//! the opening of an element, the closing of one, or an element without
//! content. Text, comments and the end of the document are no events.

use crate::data_handling::NodeSubset;
use crate::decimal::{parse_u64, spec_parse_u64};
use crate::osm_parsing::osm_data_types::{spec_identifier, spec_node_attributes};
use crate::osm_parsing::{CurrentlyReading, IngestError, Node, StateMachine, Way};
use crate::tags::Tags;
use crate::text::same_text;
use std::collections::HashMap;
use vstd::pervasive::unreached;
use vstd::prelude::*;
use vstd::std_specs::hash::*;
use vstd::string::StringSliceAdditionalSpecFns;
use vstd::utf8::encode_utf8;

verus! {

broadcast use group_hash_axioms;

/// One element event of the document.
#[derive(Debug)]
pub enum XmlEvent {
    /// An element opens.
    Start { name: String, attributes: Tags },
    /// An element closes.
    End,
    /// An element without content.
    Empty { name: String, attributes: Tags },
}

/// What became of an event.
#[derive(Clone, Copy, Debug, PartialEq, Eq, Structural)]
pub enum Reading {
    /// The event was taken up, or stands for nothing that is kept.
    Taken,
    /// The event stands where it cannot be used: it deserves a warning.
    Dropped,
}

/// The nodes and ways read so far, and the element that is being read.
pub struct Ingestion {
    pub node_map: HashMap<u64, Node>,
    pub way_map: HashMap<u64, Way>,
    pub state_machine: StateMachine,
}

/// The reference that a node-reference element holds: the value of its one
/// attribute, whatever its name.
pub open spec fn spec_reference(attributes: Map<Seq<char>, Seq<char>>) -> Result<u64, IngestError> {
    if attributes.dom().len() != 1 {
        Err(IngestError::MalformedReference)
    } else {
        match spec_parse_u64(
            encode_utf8(attributes[choose|k: Seq<char>| attributes.contains_key(k)]),
        ) {
            Some(id) => Ok(id),
            None => Err(IngestError::InvalidNumber),
        }
    }
}

/// A tag element has exactly a key and a value.
pub open spec fn well_formed_tag(attributes: Map<Seq<char>, Seq<char>>) -> bool {
    attributes.dom().len() == 2 && attributes.contains_key("k"@) && attributes.contains_key("v"@)
}

impl Ingestion {
    /// The maps are as before.
    pub open spec fn same_maps(&self, before: &Ingestion) -> bool {
        self.node_map == before.node_map && self.way_map == before.way_map
    }

    /// A point element with these attributes has opened.
    pub open spec fn opened_node(
        &self,
        before: &Ingestion,
        attributes: Map<Seq<char>, Seq<char>>,
    ) -> bool {
        match spec_node_attributes(attributes) {
            Ok((id, coordinate)) => {
                &&& self.state_machine@ == CurrentlyReading::Node(id)
                &&& self.way_map == before.way_map
                &&& self.node_map@.dom() == before.node_map@.dom().insert(id)
                &&& self.node_map@[id].is_fresh(id, coordinate)
                &&& forall|n: u64|
                    n != id && before.node_map@.contains_key(n) ==> #[trigger] self.node_map@[n]
                        == before.node_map@[n]
            },
            Err(_) => *self == *before,
        }
    }

    /// A polyline element with these attributes has opened.
    pub open spec fn opened_way(
        &self,
        before: &Ingestion,
        attributes: Map<Seq<char>, Seq<char>>,
    ) -> bool {
        match spec_identifier(attributes) {
            Ok(id) => {
                &&& self.state_machine@ == CurrentlyReading::Way(id)
                &&& self.node_map == before.node_map
                &&& self.way_map@.dom() == before.way_map@.dom().insert(id)
                &&& self.way_map@[id].is_fresh(id)
                &&& forall|w: u64|
                    w != id && before.way_map@.contains_key(w) ==> #[trigger] self.way_map@[w]
                        == before.way_map@[w]
            },
            Err(_) => *self == *before,
        }
    }

    /// A tag with these attributes was read: it went to the node or the way
    /// that is being read, if the graph holds it.
    pub open spec fn tagged(&self, before: &Ingestion, attributes: Map<Seq<char>, Seq<char>>) -> bool {
        if !well_formed_tag(attributes) {
            *self == *before
        } else {
            &&& self.state_machine@ == before.state_machine@
            &&& match before.state_machine@ {
                CurrentlyReading::Node(id) => {
                    &&& self.way_map == before.way_map
                    &&& self.node_map@.dom() == before.node_map@.dom()
                    &&& forall|n: u64|
                        n != id && before.node_map@.contains_key(n) ==> #[trigger] self.node_map@[n]
                            == before.node_map@[n]
                    &&& before.node_map@.contains_key(id) ==> {
                        let old_node = before.node_map@[id];
                        let new_node = self.node_map@[id];
                        &&& new_node.id == old_node.id
                        &&& new_node.coordinate == old_node.coordinate
                        &&& new_node.ways == old_node.ways
                        &&& new_node.nodes == old_node.nodes
                        &&& new_node.tags@ == old_node.tags@.insert(
                            attributes["k"@],
                            attributes["v"@],
                        )
                    }
                },
                CurrentlyReading::Way(id) => {
                    &&& self.node_map == before.node_map
                    &&& self.way_map@.dom() == before.way_map@.dom()
                    &&& forall|w: u64|
                        w != id && before.way_map@.contains_key(w) ==> #[trigger] self.way_map@[w]
                            == before.way_map@[w]
                    &&& before.way_map@.contains_key(id) ==> {
                        let old_way = before.way_map@[id];
                        let new_way = self.way_map@[id];
                        &&& new_way.id == old_way.id
                        &&& new_way.node_ids == old_way.node_ids
                        &&& new_way.tags@ == old_way.tags@.insert(attributes["k"@], attributes["v"@])
                    }
                },
                _ => self.same_maps(before),
            }
        }
    }

    /// A node reference with these attributes was read: it went to the end
    /// of the way that is being read, if the graph holds it.
    pub open spec fn referenced(
        &self,
        before: &Ingestion,
        attributes: Map<Seq<char>, Seq<char>>,
    ) -> bool {
        match spec_reference(attributes) {
            Err(_) => *self == *before,
            Ok(node_id) => {
                &&& self.state_machine@ == before.state_machine@
                &&& self.node_map == before.node_map
                &&& match before.state_machine@ {
                    CurrentlyReading::Way(id) => {
                        &&& self.way_map@.dom() == before.way_map@.dom()
                        &&& forall|w: u64|
                            w != id && before.way_map@.contains_key(w) ==> #[trigger] self.way_map@[w]
                                == before.way_map@[w]
                        &&& before.way_map@.contains_key(id) ==> {
                            let old_way = before.way_map@[id];
                            let new_way = self.way_map@[id];
                            &&& new_way.id == old_way.id
                            &&& new_way.tags == old_way.tags
                            &&& new_way.node_ids@ == old_way.node_ids@.push(node_id)
                        }
                    },
                    _ => self.way_map == before.way_map,
                }
            },
        }
    }

    /// What the reader answers to an event.
    pub open spec fn spec_answer(&self, event: &XmlEvent) -> Result<Reading, IngestError> {
        match event {
            XmlEvent::Start { name, attributes } => {
                if name@ == "node"@ {
                    match spec_node_attributes(attributes@) {
                        Ok(_) => Ok(Reading::Taken),
                        Err(e) => Err(e),
                    }
                } else if name@ == "way"@ {
                    match spec_identifier(attributes@) {
                        Ok(_) => Ok(Reading::Taken),
                        Err(e) => Err(e),
                    }
                } else {
                    Ok(Reading::Taken)
                }
            },
            XmlEvent::End => Ok(Reading::Taken),
            XmlEvent::Empty { name, attributes } => {
                if name@ == "node"@ {
                    match spec_node_attributes(attributes@) {
                        Ok(_) => Ok(Reading::Taken),
                        Err(e) => Err(e),
                    }
                } else if name@ == "tag"@ {
                    if !well_formed_tag(attributes@) {
                        Err(IngestError::MalformedTag)
                    } else {
                        match self.state_machine@ {
                            CurrentlyReading::Node(_) => Ok(Reading::Taken),
                            CurrentlyReading::Way(_) => Ok(Reading::Taken),
                            _ => Ok(Reading::Dropped),
                        }
                    }
                } else if name@ == "nd"@ {
                    match spec_reference(attributes@) {
                        Err(e) => Err(e),
                        Ok(_) => match self.state_machine@ {
                            CurrentlyReading::Way(_) => Ok(Reading::Taken),
                            _ => Ok(Reading::Dropped),
                        },
                    }
                } else if name@ == "member"@ || name@ == "bounds"@ || name@ == "meta"@ {
                    Ok(Reading::Taken)
                } else {
                    Ok(Reading::Dropped)
                }
            },
        }
    }

    /// The reader stands after the event as the rules of reading say.
    /// Opening a point, a polyline or a relation makes it what is being
    /// read; closing any element makes that nothing. A tag goes to the point
    /// or polyline being read, a node reference to the polyline being read.
    /// An event that fails leaves everything as it was.
    pub open spec fn follows(&self, before: &Ingestion, event: &XmlEvent) -> bool {
        match event {
            XmlEvent::Start { name, attributes } => {
                if name@ == "node"@ {
                    self.opened_node(before, attributes@)
                } else if name@ == "way"@ {
                    self.opened_way(before, attributes@)
                } else if name@ == "relation"@ {
                    self.same_maps(before) && self.state_machine@ == CurrentlyReading::Relation(0)
                } else {
                    *self == *before
                }
            },
            XmlEvent::End => self.same_maps(before) && self.state_machine@
                == CurrentlyReading::Nothing,
            XmlEvent::Empty { name, attributes } => {
                if name@ == "node"@ {
                    self.opened_node(before, attributes@)
                } else if name@ == "tag"@ {
                    self.tagged(before, attributes@)
                } else if name@ == "nd"@ {
                    self.referenced(before, attributes@)
                } else {
                    *self == *before
                }
            },
        }
    }

    /// A reader that has read nothing.
    pub fn new() -> (r: Ingestion)
        ensures
            r.node_map@ == Map::<u64, Node>::empty(),
            r.way_map@ == Map::<u64, Way>::empty(),
            r.state_machine@ == CurrentlyReading::Nothing,
    {
        Ingestion {
            node_map: HashMap::new(),
            way_map: HashMap::new(),
            state_machine: StateMachine::new(),
        }
    }

    /// Takes a point element.
    fn open_node(&mut self, attributes: &Tags) -> (r: Result<Reading, IngestError>)
        ensures
            final(self).opened_node(old(self), attributes@),
            r == match spec_node_attributes(attributes@) {
                Ok(_) => Ok::<Reading, IngestError>(Reading::Taken),
                Err(e) => Err(e),
            },
    {
        match Node::try_new(attributes) {
            Err(e) => Err(e),
            Ok(node) => {
                let id = node.id;
                self.state_machine.update(CurrentlyReading::Node(id));
                self.node_map.insert(id, node);
                Ok(Reading::Taken)
            },
        }
    }

    /// Takes a polyline element.
    fn open_way(&mut self, attributes: &Tags) -> (r: Result<Reading, IngestError>)
        ensures
            final(self).opened_way(old(self), attributes@),
            r == match spec_identifier(attributes@) {
                Ok(_) => Ok::<Reading, IngestError>(Reading::Taken),
                Err(e) => Err(e),
            },
    {
        match Way::try_new(attributes) {
            Err(e) => Err(e),
            Ok(way) => {
                let id = way.id;
                self.state_machine.update(CurrentlyReading::Way(id));
                self.way_map.insert(id, way);
                Ok(Reading::Taken)
            },
        }
    }

    /// Takes a tag element.
    fn take_tag(&mut self, attributes: &Tags) -> (r: Result<Reading, IngestError>)
        ensures
            final(self).tagged(old(self), attributes@),
            r == (if !well_formed_tag(attributes@) {
                Err::<Reading, IngestError>(IngestError::MalformedTag)
            } else {
                match old(self).state_machine@ {
                    CurrentlyReading::Node(_) => Ok(Reading::Taken),
                    CurrentlyReading::Way(_) => Ok(Reading::Taken),
                    _ => Ok(Reading::Dropped),
                }
            }),
    {
        if attributes.len() != 2 {
            return Err(IngestError::MalformedTag);
        }
        let key = match attributes.get("k") {
            Some(key) => key.clone(),
            None => {
                return Err(IngestError::MalformedTag);
            },
        };
        let value = match attributes.get("v") {
            Some(value) => value.clone(),
            None => {
                return Err(IngestError::MalformedTag);
            },
        };
        match *self.state_machine.current_status() {
            CurrentlyReading::Node(id) => {
                let ghost before = self.node_map@;
                if let Some(mut node) = self.node_map.remove(&id) {
                    node.tags.insert(key, value);
                    self.node_map.insert(id, node);
                }
                assert(self.node_map@.dom() =~= before.dom());
                Ok(Reading::Taken)
            },
            CurrentlyReading::Way(id) => {
                let ghost before = self.way_map@;
                if let Some(mut way) = self.way_map.remove(&id) {
                    way.tags.insert(key, value);
                    self.way_map.insert(id, way);
                }
                assert(self.way_map@.dom() =~= before.dom());
                Ok(Reading::Taken)
            },
            CurrentlyReading::Relation(_) => Ok(Reading::Dropped),
            CurrentlyReading::Nothing => Ok(Reading::Dropped),
        }
    }

    /// Takes a node-reference element.
    fn take_reference(&mut self, attributes: &Tags) -> (r: Result<Reading, IngestError>)
        ensures
            final(self).referenced(old(self), attributes@),
            r == match spec_reference(attributes@) {
                Err(e) => Err::<Reading, IngestError>(e),
                Ok(_) => match old(self).state_machine@ {
                    CurrentlyReading::Way(_) => Ok(Reading::Taken),
                    _ => Ok(Reading::Dropped),
                },
            },
    {
        if attributes.len() != 1 {
            return Err(IngestError::MalformedReference);
        }
        let text = attributes.value_at(0);
        proof {
            let only = attributes.pairs()[0].0;
            let chosen = choose|k: Seq<char>| attributes@.contains_key(k);
            assert(attributes@.contains_key(only));
            assert(attributes@.contains_key(chosen));
            let i = choose|i: int| 0 <= i < attributes.pairs().len() && attributes.pairs()[i].0 == chosen;
            assert(i == 0);
        }
        let node_id = match parse_u64(text.as_str()) {
            Some(node_id) => node_id,
            None => {
                return Err(IngestError::InvalidNumber);
            },
        };
        match *self.state_machine.current_status() {
            CurrentlyReading::Way(id) => {
                let ghost before = self.way_map@;
                if let Some(mut way) = self.way_map.remove(&id) {
                    way.node_ids.push(node_id);
                    self.way_map.insert(id, way);
                }
                assert(self.way_map@.dom() =~= before.dom());
                Ok(Reading::Taken)
            },
            _ => Ok(Reading::Dropped),
        }
    }

    /// Takes one event of the document.
    pub fn handle(&mut self, event: &XmlEvent) -> (r: Result<Reading, IngestError>)
        ensures
            r == old(self).spec_answer(event),
            final(self).follows(old(self), event),
    {
        match event {
            XmlEvent::Start { name, attributes } => {
                if same_text(name.as_str(), "node") {
                    self.open_node(attributes)
                } else if same_text(name.as_str(), "way") {
                    self.open_way(attributes)
                } else if same_text(name.as_str(), "relation") {
                    self.state_machine.update(CurrentlyReading::Relation(0));
                    Ok(Reading::Taken)
                } else {
                    Ok(Reading::Taken)
                }
            },
            XmlEvent::End => {
                self.state_machine.update(CurrentlyReading::Nothing);
                Ok(Reading::Taken)
            },
            XmlEvent::Empty { name, attributes } => {
                if same_text(name.as_str(), "node") {
                    self.open_node(attributes)
                } else if same_text(name.as_str(), "tag") {
                    self.take_tag(attributes)
                } else if same_text(name.as_str(), "nd") {
                    self.take_reference(attributes)
                } else if same_text(name.as_str(), "member") || same_text(name.as_str(), "bounds")
                    || same_text(name.as_str(), "meta") {
                    Ok(Reading::Taken)
                } else {
                    Ok(Reading::Dropped)
                }
            },
        }
    }
}

/// `readers` are the states that a reader goes through on the first
/// `read` events: it starts with nothing, answers no event with an error,
/// and stands after each event as the rules of reading say.
pub open spec fn is_reading(readers: Seq<Ingestion>, events: Seq<XmlEvent>, read: int) -> bool {
    &&& 0 <= read <= events.len()
    &&& readers.len() == read + 1
    &&& readers[0].node_map@ == Map::<u64, Node>::empty()
    &&& readers[0].way_map@ == Map::<u64, Way>::empty()
    &&& readers[0].state_machine@ == CurrentlyReading::Nothing
    &&& forall|i: int|
        0 <= i < read ==> (#[trigger] readers[i]).spec_answer(&events[i]) is Ok && readers[i
            + 1].follows(&readers[i], &events[i])
}

/// No event of the document fails: whatever a reader has read of it, it
/// answers the next event.
pub open spec fn is_readable(events: Seq<XmlEvent>) -> bool {
    forall|readers: Seq<Ingestion>, at: int|
        #![trigger is_reading(readers, events, at)]
        at < events.len() && is_reading(readers, events, at) ==> readers.last().spec_answer(
            &events[at],
        ) is Ok
}

/// Reads a whole document from its events, none of which fails. The result
/// holds the nodes and the ways, and no subset yet.
pub fn parse_xml(events: &Vec<XmlEvent>) -> (r: (
    HashMap<u64, Node>,
    HashMap<u64, Way>,
    Vec<NodeSubset>,
))
    requires
        is_readable(events@),
    ensures
        r.2@.len() == 0,
        exists|readers: Seq<Ingestion>|
            #![trigger is_reading(readers, events@, events@.len() as int)]
            is_reading(readers, events@, events@.len() as int) && readers.last().node_map == r.0
                && readers.last().way_map == r.1,
{
    match try_parse_xml(events) {
        Ok(read) => read,
        Err(e) => {
            proof {
                let (readers, at) = choose|readers: Seq<Ingestion>, at: int|
                    #![trigger is_reading(readers, events@, at)]
                    at < events@.len() && is_reading(readers, events@, at)
                        && readers.last().spec_answer(&events@[at]) == Err::<Reading, IngestError>(
                        e,
                    );
                assert(is_reading(readers, events@, at));
            }
            unreached()
        },
    }
}

/// Reads a whole document from its events. The result holds the nodes and
/// the ways, and no subset yet. The first event that fails ends the reading
/// with its error.
pub fn try_parse_xml(events: &Vec<XmlEvent>) -> (r: Result<
    (HashMap<u64, Node>, HashMap<u64, Way>, Vec<NodeSubset>),
    IngestError,
>)
    ensures
        match r {
            Ok((node_map, way_map, node_subsets)) => {
                &&& node_subsets@.len() == 0
                &&& exists|readers: Seq<Ingestion>|
                    #![trigger is_reading(readers, events@, events@.len() as int)]
                    is_reading(readers, events@, events@.len() as int) && readers.last().node_map
                        == node_map && readers.last().way_map == way_map
            },
            Err(e) => exists|readers: Seq<Ingestion>, at: int|
                #![trigger is_reading(readers, events@, at)]
                at < events@.len() && is_reading(readers, events@, at)
                    && readers.last().spec_answer(&events@[at]) == Err::<Reading, IngestError>(e),
        },
{
    let mut reader = Ingestion::new();
    let ghost mut readers: Seq<Ingestion> = seq![reader];
    let mut i: usize = 0;
    while i < events.len()
        invariant
            i <= events@.len(),
            is_reading(readers, events@, i as int),
            readers.last() == reader,
        decreases events@.len() - i,
    {
        let ghost before = readers;
        match reader.handle(&events[i]) {
            Err(e) => {
                return Err(e);
            },
            Ok(_) => {},
        }
        proof {
            readers = readers.push(reader);
            assert forall|j: int| 0 <= j < i + 1 implies (#[trigger] readers[j]).spec_answer(
                &events@[j],
            ) is Ok && readers[j + 1].follows(&readers[j], &events@[j]) by {
                if j < i {
                    assert(readers[j] == before[j]);
                    assert(readers[j + 1] == before[j + 1]);
                }
            }
        }
        i += 1;
    }
    Ok((reader.node_map, reader.way_map, Vec::new()))
}

} // verus!
