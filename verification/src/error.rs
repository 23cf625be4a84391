//! What can go wrong while a grid is built.

use vstd::prelude::*;

verus! {

/// One of the six fields of the header line of the text distribution, in the
/// order in which they stand on that line.
#[derive(Clone, Copy, Debug, PartialEq, Eq, Structural)]
pub enum HeaderField {
    MinLat,
    MaxLat,
    MinLng,
    MaxLng,
    LatInterval,
    LngInterval,
}

/// Why a grid could not be built.
#[derive(Clone, Copy, Debug, PartialEq, Eq, Structural)]
pub enum GridError {
    /// The byte stream ends before the header or the last sample.
    TruncatedInput,
    /// The byte stream rebuilds a sample that leaves the 32-bit range.
    SampleOutOfRange,
    /// The header line does not hold exactly six fields.
    HeaderFieldCount,
    /// The named header field differs from the only value that is accepted.
    HeaderField(HeaderField),
    /// The data token with this index (counted from zero) is no number.
    InvalidToken { index: usize },
    /// The text holds `found` data tokens where `expected` are needed.
    PointCount { expected: usize, found: usize },
    /// The compressed block is damaged.
    Decompress,
}

} // verus!
