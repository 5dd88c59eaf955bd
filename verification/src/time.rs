use vstd::prelude::*;

verus! {

/// An absolute point in time, normalized to a fixed reference
/// timezone (UTC): whole seconds since the Unix epoch plus a
/// sub-second nanosecond part.  Any display-timezone conversion
/// happens outside this core.
#[derive(Clone, Copy, Debug, PartialEq, Eq, Structural)]
pub struct Timestamp {
    /// Whole seconds since the Unix epoch; negative for instants
    /// before it.
    pub secs: i64,
    /// Sub-second part, in nanoseconds.
    pub nanos: u32,
}

} // verus!
