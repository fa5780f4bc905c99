//! The ways the reset operation can fail.

use vstd::prelude::*;

verus! {

/// Why a reset of the persisted document did not go through.
///
/// `MissingField` carries the name of the absent field and is the one
/// variant the in-memory mutation itself produces. The other variants
/// describe failures at the file boundary: they are raised by the code
/// that reads, parses and writes the file on the library's behalf.
#[derive(Debug, PartialEq, Eq)]
pub enum ResetError {
    /// The file could not be opened for reading or created for writing.
    IOError,
    /// The file's contents are not a well-formed document.
    FormatError,
    /// An expected field is absent; the name says which one.
    MissingField(String),
    /// The document could not be encoded back to text.
    SerializationError,
}

} // verus!
