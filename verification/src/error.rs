use vstd::prelude::*;

verus! {

/// Why a scenario was refused while it was being built.
#[derive(Clone, Copy, Debug, PartialEq, Eq, Structural)]
pub enum ConfigError {
    /// A coordinate or a speed lies outside the representable band.
    OutOfBounds,
    /// The two endpoints of a wall or of a timing gate coincide.
    DegenerateWall,
    /// No waypoint group has the given number.
    UnknownGroup,
    /// The group has no start point of the given number.
    UnknownStart,
    /// The group has no end point of the given number.
    UnknownEnd,
    /// The group has no start point or no end point to draw from.
    EmptyGroup,
}

} // verus!
