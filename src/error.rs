use vstd::prelude::*;

verus! {

/// Failures that the library reports instead of producing a frame.
#[derive(Clone, Copy, Debug, PartialEq, Eq, Structural)]
pub enum FrameError {
    /// A requested frame index is not below the number of frames.
    IndexOutOfRange,
    /// No frame took part in an accumulation, so there is no mean to take.
    EmptyAccumulation,
    /// Frame sizes, buffer lengths or reduction sizes do not agree.
    GeometryMismatch,
}

} // verus!
