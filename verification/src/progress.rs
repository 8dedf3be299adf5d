//! The progress record: last completed round and image index.
//!
//! A plain two-field record, overwritten once per completed capture by the
//! sequencer and reset between jobs by the controller. Its view is the pair
//! `(runde, aufnahme)`.

use vstd::prelude::*;

verus! {

pub struct Fortschritt {
    runde: i32,
    aufnahme: i32,
}

impl View for Fortschritt {
    type V = (int, int);

    closed spec fn view(&self) -> (int, int) {
        (self.runde as int, self.aufnahme as int)
    }
}

impl Fortschritt {
    /// The zero state: no capture completed yet.
    pub fn new() -> (f: Fortschritt)
        ensures
            f@ == (0int, 0int),
    {
        Fortschritt { runde: 0, aufnahme: 0 }
    }

    /// Unconditionally overwrites the image index.
    pub fn set_aufnahme(&mut self, new_val: i32)
        ensures
            final(self)@ == (old(self)@.0, new_val as int),
    {
        self.aufnahme = new_val;
    }

    /// Unconditionally overwrites the round index.
    pub fn set_runde(&mut self, new_val: i32)
        ensures
            final(self)@ == (new_val as int, old(self)@.1),
    {
        self.runde = new_val;
    }

    /// Snapshot of the round index.
    pub fn runde(&self) -> (r: i32)
        ensures
            r as int == self@.0,
    {
        self.runde
    }

    /// Snapshot of the image index.
    pub fn aufnahme(&self) -> (r: i32)
        ensures
            r as int == self@.1,
    {
        self.aufnahme
    }

    /// Returns the record to its zero state.
    pub fn reset(&mut self)
        ensures
            final(self)@ == (0int, 0int),
    {
        self.runde = 0;
        self.aufnahme = 0;
    }
}

} // verus!
