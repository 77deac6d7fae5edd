//! What a measured round holds on the connection while an address is closed or handed over.

use vstd::prelude::*;

verus! {

/// What is on the connection when a close begins, and how far the round waits for it.
#[derive(Clone, Copy, Debug, PartialEq, Eq)]
pub struct Closing {
    asking_for: &'static str,
    ending: bool,
}

impl Closing {
    /// The path the held request asks for.
    pub closed spec fn spec_asking_for(self) -> &'static str {
        self.asking_for
    }

    /// Whether the round ends the server after closing it.
    pub closed spec fn spec_ending(self) -> bool {
        self.ending
    }

    /// States a round holding `asking_for`, which ends the server after closing it when `ending`.
    pub fn new(asking_for: &'static str, ending: bool) -> (r: Self)
        ensures
            r.spec_asking_for() == asking_for,
            r.spec_ending() == ending,
    {
        Closing { asking_for, ending }
    }

    /// Returns the path the held request asks for.
    pub fn asking_for(self) -> (r: &'static str)
        ensures
            r == self.spec_asking_for(),
    {
        self.asking_for
    }

    /// Returns whether the round ends the server after closing it.
    pub fn ending(self) -> (r: bool)
        ensures
            r == self.spec_ending(),
    {
        self.ending
    }
}

/// What is on the connection while one address is handed from a server to the next.
#[derive(Clone, Copy, Debug, PartialEq, Eq)]
pub enum Handover {
    /// Nothing.
    NoRequest,
    /// A request asked and answered, timed as part of the round.
    RequestOk,
    /// A request the server is still producing an answer for, held off the clock.
    RequestHeld(&'static str),
}

impl Handover {
    /// Whether a round asks and is answered inside the timed part.
    pub fn asks_on_the_clock(self) -> (r: bool)
        ensures
            r <==> self is RequestOk,
    {
        match self {
            Handover::RequestOk => true,
            _ => false,
        }
    }

    /// The path a round holds a request for off the clock, where it holds one.
    pub fn held(self) -> (r: Option<&'static str>)
        ensures
            r == match self {
                Handover::RequestHeld(asking_for) => Some(asking_for),
                _ => None,
            },
    {
        match self {
            Handover::RequestHeld(asking_for) => Some(asking_for),
            _ => None,
        }
    }
}

} // verus!
