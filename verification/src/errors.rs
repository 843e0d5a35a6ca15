use vstd::prelude::*;

verus! {

/// The faults that sequence construction can report.
///
/// Every other way a sequence can stop producing values is a natural end,
/// not an error.
#[derive(Clone, Copy, Debug, PartialEq, Eq, Structural)]
pub enum RangeError {
    /// The range's lower bound exceeds its upper bound.
    RangeOrder,
    /// A skip count is not representable in the output type.
    Conversion,
    /// Precomputing the jump width overflowed the output type.
    ArithmeticOverflow,
}

} // verus!
