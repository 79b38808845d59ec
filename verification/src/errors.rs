//! Error values returned by the runtime core.

use vstd::prelude::*;

verus! {

/// Every failure the runtime core reports.
#[derive(Debug)]
pub enum Error {
    /// A graph-level attribute is missing or ill-typed, `node_row_ptr` is
    /// absent, or a node carries an unsupported op.
    GraphFormat(String),
    /// The graph JSON could not be decoded.
    GraphDeserialize(String),
    /// The binary parameter dictionary could not be decoded, or bytes were
    /// left over after it.
    LoadGraphParams(String),
    /// The requested layout was invalid.
    Alloc,
    /// A downcast of a packed-function return value found another type code
    /// than the caller expected; carries the expected type's name and the
    /// actual code.
    TryFromTVMRetValue(String, i64),
    /// Kernel lookup missed during binding; carries the function name.
    MissingFunction(String),
    /// A packed function returned a non-zero status.
    Kernel,
    /// Any other failure, described in words.
    Msg(String),
}

} // verus!
