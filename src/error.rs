use vstd::prelude::*;

verus! {

/// Why a multiplication, or one of its cells, could not be computed.
#[derive(Debug, Clone, Copy, PartialEq, Eq, Structural)]
pub enum MatrixError {
    /// The left operand's column count differs from the right operand's row count.
    DimensionMismatch,
    /// A row and a column handed to one dot product differ in length.
    LengthMismatch,
    /// A product or a running sum of a dot product left the range of `i64`.
    Overflow,
    /// The number of replies differs from the number of cells of the result.
    ReplyCount,
    /// A reply names another destination cell than the one it stands for.
    MisplacedReply,
    /// A worker went away without answering.
    WorkerLost,
}

} // verus!
