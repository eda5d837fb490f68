//! Errors that end the writing of a document.

use vstd::prelude::*;

verus! {

/// Why a document could not be written.
#[derive(Clone, Copy, PartialEq, Eq, Structural, Debug)]
pub enum KrillaError {
    /// The image with this number could not be converted.
    Image(u64),
    /// The PDF with this number could not be embedded.
    Pdf(u64),
    /// There are no numbers left for new references.
    RefsExhausted,
    /// The XMP metadata does not fit into a stream.
    MetadataTooLong,
}

/// The result of an operation that may end the writing of a document.
pub type KrillaResult<T> = Result<T, KrillaError>;

} // verus!
