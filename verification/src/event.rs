use crate::keys::Key;
use crate::time::{nanos_of, to_nanos};
use std::cmp::Ordering;
use std::time::Duration;
use vstd::prelude::*;

verus! {

/// One pending event: a task and the simulated time at which it is resumed.
///
/// Entries are compared by their time alone, and in reverse: the entry that
/// is due first is the greatest. The task plays no part in the comparison.
#[derive(Clone, Copy, Debug)]
pub struct EventEntry {
    time: Duration,
    entity_key: Key,
}

impl EventEntry {
    /// The simulated time at which the entry is due, in nanoseconds.
    pub closed spec fn due(&self) -> nat {
        nanos_of(self.time)
    }

    /// The task the entry resumes.
    pub closed spec fn owner(&self) -> Key {
        self.entity_key
    }

    /// An entry that resumes `entity_key` at `time`.
    pub fn new(time: Duration, entity_key: Key) -> (entry: EventEntry)
        ensures
            entry.due() == nanos_of(time),
            entry.owner() == entity_key,
    {
        EventEntry { time, entity_key }
    }

    /// The task the entry resumes.
    pub fn key(&self) -> (key: Key)
        ensures
            key == self.owner(),
    {
        self.entity_key
    }

    /// The simulated time at which the entry is due.
    pub fn time(&self) -> (time: Duration)
        ensures
            nanos_of(time) == self.due(),
    {
        self.time
    }

    /// Whether `self` is due strictly before `other`.
    pub fn before(&self, other: &EventEntry) -> (r: bool)
        ensures
            r == (self.due() < other.due()),
    {
        to_nanos(self.time) < to_nanos(other.time)
    }

    /// Orders two entries by urgency: the one that is due earlier is the
    /// greater, and entries due at the same time are equal.
    pub fn cmp(&self, other: &EventEntry) -> (o: Ordering)
        ensures
            self.due() < other.due() ==> o == Ordering::Greater,
            self.due() == other.due() ==> o == Ordering::Equal,
            self.due() > other.due() ==> o == Ordering::Less,
    {
        let mine = to_nanos(self.time);
        let theirs = to_nanos(other.time);
        if mine < theirs {
            Ordering::Greater
        } else if mine == theirs {
            Ordering::Equal
        } else {
            Ordering::Less
        }
    }
}

impl PartialEq for EventEntry {
    fn eq(&self, other: &EventEntry) -> (r: bool) {
        to_nanos(self.time) == to_nanos(other.time)
    }
}

impl Eq for EventEntry {

}

impl vstd::std_specs::cmp::PartialEqSpecImpl for EventEntry {
    open spec fn obeys_eq_spec() -> bool {
        true
    }

    open spec fn eq_spec(&self, other: &EventEntry) -> bool {
        self.due() == other.due()
    }
}

impl PartialOrd for EventEntry {
    fn partial_cmp(&self, other: &EventEntry) -> (o: Option<Ordering>) {
        Some(self.cmp(other))
    }
}

impl vstd::std_specs::cmp::PartialOrdSpecImpl for EventEntry {
    open spec fn obeys_partial_cmp_spec() -> bool {
        true
    }

    open spec fn partial_cmp_spec(&self, other: &EventEntry) -> Option<Ordering> {
        if self.due() < other.due() {
            Some(Ordering::Greater)
        } else if self.due() == other.due() {
            Some(Ordering::Equal)
        } else {
            Some(Ordering::Less)
        }
    }
}

} // verus!
