//! The errors of a render.
use vstd::prelude::*;
use crate::geometry::ControlPoints;

verus! {

/// Why a render was abandoned.
#[derive(Clone, Copy, Debug, PartialEq, Eq, Structural)]
pub enum SARError {
    /// No perspective transform carries the source square onto the
    /// destination corners held here.
    ProjectionError(ControlPoints),
    /// A layer names a symbol that the resource cache does not hold.
    SymbolNotFound(u32),
    /// The viewport of the composition is larger than the working canvas.
    InternalSizeInvariantViolation,
}

} // verus!
