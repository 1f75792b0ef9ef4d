use vstd::prelude::*;

verus! {

/// A detected peak: a sample index and the level of the rectified signal there.
#[derive(Clone, Copy, Debug, PartialEq, Eq, Structural)]
pub struct Peak {
    pub index: usize,
    pub level: u64,
}

/// One sample of the rectified signal, with whether it exceeded the
/// adaptive detection boundary.
#[derive(Clone, Copy, Debug, PartialEq, Eq, Structural)]
pub struct MarkedSample {
    pub level: u64,
    pub above: bool,
}

/// How an event relates to the event retained before it.
#[derive(Clone, Copy, Debug, PartialEq, Eq, Structural)]
pub enum EventTag {
    Isolated,
    Fractionated,
}

/// A retained peak together with its classification.
#[derive(Clone, Copy, Debug, PartialEq, Eq, Structural)]
pub struct Event {
    pub peak: Peak,
    pub tag: EventTag,
}

} // verus!
