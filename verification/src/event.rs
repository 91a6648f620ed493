//! Events: timestamped pixel-polarity change reports from the sensor.

use vstd::prelude::*;

verus! {

/// The direction of a pixel brightness change. Each polarity has its own
/// timestamp surface, so the two kinds of change are tracked independently.
#[derive(Clone, Copy, PartialEq, Eq, Structural, Debug)]
pub enum Polarity {
    Rise,
    Fall,
}

/// A single pixel-brightness-change event. Timestamps are integer tick
/// counts; the tick value 0 is reserved as the "never observed" sentinel of
/// the surface, so real events carry timestamps of at least 1.
#[derive(Clone, Copy, PartialEq, Eq, Structural, Debug)]
pub struct Event {
    pub row: u32,
    pub col: u32,
    pub timestamp: u32,
    pub polarity: Polarity,
}

} // verus!
