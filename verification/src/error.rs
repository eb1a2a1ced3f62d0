//! The one way a plot can fail: a caller handed in an argument that no
//! picture can be made from.

use vstd::prelude::*;

verus! {

/// Why an argument was turned down.
#[derive(Clone, Copy, Debug, PartialEq, Eq, Structural)]
pub enum InvalidArgument {
    /// A domain was asked for samples in zero steps.
    ZeroSteps,
    /// A grid has no pixel columns, no pixel rows, or no text rows.
    EmptyGrid,
    /// A grid side is longer than [`crate::canvas::MAX_SIDE`] pixels.
    GridTooLarge,
    /// Buckets of equal width were asked for where that width is not positive.
    DegenerateBuckets,
    /// The two tick labels of the horizontal axis do not fit in its width.
    LabelsTooWide,
}

} // verus!
