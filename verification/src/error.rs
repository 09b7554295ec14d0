use vstd::prelude::*;

verus! {

/// The ways a multiply request or a single work item can fail.
#[derive(Clone, Copy, Debug, PartialEq, Eq, Structural)]
pub enum Error {
    /// `multiply` was given operands whose inner dimensions disagree.
    DimensionMismatch,
    /// A dot product was asked of two vectors of different lengths.
    LengthMismatch,
    /// A reply channel was closed before its result arrived.
    ChannelClosed,
}

} // verus!
