use crate::osm_parsing::{CurrentlyReading, StateMachine};
use vstd::prelude::*;

verus! {

impl View for StateMachine {
    type V = CurrentlyReading;

    closed spec fn view(&self) -> CurrentlyReading {
        self.currently_reading
    }
}

impl StateMachine {
    /// A reader that is inside of nothing.
    pub fn new() -> (r: Self)
        ensures
            r@ == CurrentlyReading::Nothing,
    {
        let currently_reading = CurrentlyReading::Nothing;
        StateMachine { currently_reading }
    }

    pub fn update(&mut self, currently_reading: CurrentlyReading)
        ensures
            final(self)@ == currently_reading,
    {
        self.currently_reading = currently_reading;
    }

    pub fn current_status(&self) -> (r: &CurrentlyReading)
        ensures
            *r == self@,
    {
        &self.currently_reading
    }

    /// The identifier of the element that is being read.
    pub fn _current_id(&self) -> (r: Option<u64>)
        ensures
            r == match self@ {
                CurrentlyReading::Node(id) => Some(id),
                CurrentlyReading::Way(id) => Some(id),
                CurrentlyReading::Relation(id) => Some(id),
                CurrentlyReading::Nothing => None,
            },
    {
        match self.currently_reading {
            CurrentlyReading::Node(id) => Some(id),
            CurrentlyReading::Way(id) => Some(id),
            CurrentlyReading::Relation(id) => Some(id),
            CurrentlyReading::Nothing => None,
        }
    }
}

} // verus!
