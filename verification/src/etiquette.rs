use vstd::prelude::*;

verus! {

/// The steering policy a pedestrian follows for its whole life.
#[derive(Clone, Copy, Debug, PartialEq, Eq, Structural)]
pub enum Etiquette {
    /// Keep to the left of oncoming traffic.
    LeftBias,
    /// Keep to the right of oncoming traffic.
    RightBias,
    /// Walk straight at the destination.
    NoBias,
}

} // verus!
