use vstd::prelude::*;
use crate::event::{EventSet, EventStore};

verus! {

/// The events on show and the index of the event drawn.
#[derive(Debug)]
pub struct EventPlayback {
    pub events: EventSet,
    pub index: u64,
}

/// The index after `i` among `n` events: one more, back to zero past the last.
pub open spec fn next_index(i: u64, n: nat) -> u64 {
    if n == 0 {
        i
    } else if i + 1 >= n {
        0
    } else {
        (i + 1) as u64
    }
}

/// The index before `i` among `n` events: one less, on to the last below zero.
pub open spec fn previous_index(i: u64, n: nat) -> u64 {
    if n == 0 {
        i
    } else if i > 0 {
        (i - 1) as u64
    } else {
        (n - 1) as u64
    }
}

impl EventPlayback {
    pub fn new() -> (r: EventPlayback)
        ensures
            r.events.tracks@.len() == 0,
            r.events.events@.len() == 0,
            r.index == 0,
    {
        EventPlayback { events: EventSet::empty(), index: 0 }
    }

    /// Takes the latest submission from `store`, if there is one, and shows
    /// its first event. Returns whether the events changed, in which case the
    /// drawn event is to be rebuilt from scratch.
    pub fn refresh(&mut self, store: &mut EventStore) -> (changed: bool)
        ensures
            final(store).slot is None,
            changed == old(store).slot is Some,
            changed ==> old(store).slot == Some(final(self).events) && final(self).index == 0,
            !changed ==> *final(self) == *old(self),
    {
        match store.take() {
            Some(set) => {
                self.events = set;
                self.index = 0;
                true
            },
            None => false,
        }
    }

    /// Shows the next event, wrapping around past the last one.
    pub fn next(&mut self)
        ensures
            final(self).index == next_index(old(self).index, old(self).events.events@.len()),
            final(self).events == old(self).events,
    {
        let n = self.events.events.len();
        if n == 0 {
            return;
        }
        if self.index >= (n - 1) as u64 {
            self.index = 0;
        } else {
            self.index = self.index + 1;
        }
    }

    /// Shows the previous event, wrapping around below the first one.
    pub fn previous(&mut self)
        ensures
            final(self).index == previous_index(old(self).index, old(self).events.events@.len()),
            final(self).events == old(self).events,
    {
        let n = self.events.events.len();
        if n == 0 {
            return;
        }
        if self.index > 0 {
            self.index = self.index - 1;
        } else {
            self.index = (n - 1) as u64;
        }
    }
}

} // verus!
