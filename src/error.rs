use vstd::prelude::*;

verus! {

/// The ways an object-store operation can fail.
#[derive(Debug)]
pub enum GitObjectError {
    /// A filesystem operation failed while reading or listing.
    IOError(String),
    /// No stored object exists for the requested hash.
    NotFoundError(String),
    /// The stored bytes are not valid compressed data.
    CorruptObjectError(String),
    /// Bytes or a hash string do not follow the expected grammar; `offset`
    /// is where in the input the offending part begins.
    ParseError { message: String, offset: usize },
    /// Persisting an object or creating its directory failed.
    WriteError(String),
}

/// `e` is a `ParseError` that points at `offset`.
pub open spec fn parse_error_at(e: GitObjectError, offset: int) -> bool {
    e matches GitObjectError::ParseError { offset: o, .. } && o == offset
}

/// A `ParseError` with the given message, pointing at `offset`.
pub fn parse_error(msg: &str, offset: usize) -> (e: GitObjectError)
    ensures
        parse_error_at(e, offset as int),
{
    GitObjectError::ParseError { message: String::from_str(msg), offset }
}

} // verus!
