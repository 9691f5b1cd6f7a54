//! Failure classes of the decoder.

use vstd::prelude::*;

verus! {

/// Why a decoding step gave up.
#[derive(Debug, Clone, Copy, PartialEq, Eq, Structural)]
pub enum ParseError {
    /// The bytes at the cursor are not the literal that the layout asks for.
    TagMismatch,
    /// The bytes seen so far are a valid beginning, and more are needed.
    IncompleteInput,
    /// A count read from the stream cannot be used (a face count of zero).
    InvalidCount,
}

} // verus!
