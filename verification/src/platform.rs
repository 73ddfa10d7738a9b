//! Platform capabilities beyond the bus: a reset line and a blocking delay.
//!
//! Both are modelled by the history of requests made of them, so the reset
//! procedure can state exactly which levels it drove and which pauses it
//! asked for, in order. In-memory recorders stand in for real hardware when
//! exercising the driver.

use vstd::prelude::*;

verus! {

/// A digital output pin, specified by the history of levels driven on it
/// (`true` for high, `false` for low).
pub trait OutputPin: Sized {
    /// The levels driven so far, oldest first. The default leaves the history
    /// abstract, for impls outside the verified world; impls checked here give
    /// it a meaning.
    open spec fn levels(&self) -> Seq<bool> {
        Seq::empty()
    }

    /// Drive the pin high.
    fn set_high(&mut self)
        ensures
            final(self).levels() == old(self).levels().push(true),
    ;

    /// Drive the pin low.
    fn set_low(&mut self)
        ensures
            final(self).levels() == old(self).levels().push(false),
    ;
}

/// A blocking millisecond delay, specified by the history of pauses asked of
/// it.
pub trait DelayMs: Sized {
    /// The pauses requested so far, in milliseconds, oldest first. The default
    /// leaves the history abstract, for impls outside the verified world;
    /// impls checked here give it a meaning.
    open spec fn pauses(&self) -> Seq<u8> {
        Seq::empty()
    }

    /// Block for `ms` milliseconds.
    fn delay_ms(&mut self, ms: u8)
        ensures
            final(self).pauses() == old(self).pauses().push(ms),
    ;
}

/// An in-memory pin that records the levels driven on it.
pub struct RecordingPin {
    driven: Vec<bool>,
}

impl RecordingPin {
    /// A pin with no levels driven yet.
    pub fn new() -> (r: RecordingPin)
        ensures
            r.levels() == Seq::<bool>::empty(),
    {
        RecordingPin { driven: Vec::new() }
    }

    /// The levels driven so far, oldest first.
    pub fn driven(&self) -> (r: &Vec<bool>)
        ensures
            r@ == self.levels(),
    {
        &self.driven
    }
}

impl OutputPin for RecordingPin {
    closed spec fn levels(&self) -> Seq<bool> {
        self.driven@
    }

    fn set_high(&mut self) {
        self.driven.push(true);
    }

    fn set_low(&mut self) {
        self.driven.push(false);
    }
}

/// An in-memory delay that records the pauses asked of it.
pub struct RecordingDelay {
    asked: Vec<u8>,
}

impl RecordingDelay {
    /// A delay with no pauses asked yet.
    pub fn new() -> (r: RecordingDelay)
        ensures
            r.pauses() == Seq::<u8>::empty(),
    {
        RecordingDelay { asked: Vec::new() }
    }

    /// The pauses asked so far, oldest first.
    pub fn asked(&self) -> (r: &Vec<u8>)
        ensures
            r@ == self.pauses(),
    {
        &self.asked
    }
}

impl DelayMs for RecordingDelay {
    closed spec fn pauses(&self) -> Seq<u8> {
        self.asked@
    }

    fn delay_ms(&mut self, ms: u8) {
        self.asked.push(ms);
    }
}

} // verus!
