//! Error kinds of the generator pass.  Runtime-side failures (cast errors,
//! pending exceptions, string decoding) have their own per-call result types.

use vstd::prelude::*;

verus! {

/// An error that aborts a generator run.
#[derive(Debug)]
pub enum GenError {
    /// Bad classfile or archive structure; aborts the whole run.
    MalformedInput(String),
    /// Two inputs define the same fully-qualified class name, under the
    /// policy that makes that a hard error.
    ConflictingDefinition(String),
    /// An input file whose extension names no supported input kind.
    InvalidInput(String),
    /// The destination exists and its first line is not the sentinel.
    OutputConflict,
}

impl GenError {
    /// A short tag naming the error kind, for diagnostics.
    pub fn kind_name(&self) -> (s: &'static str)
        ensures
            s@ == match self {
                GenError::MalformedInput(_) => "malformed input"@,
                GenError::ConflictingDefinition(_) => "conflicting definition"@,
                GenError::InvalidInput(_) => "invalid input"@,
                GenError::OutputConflict => "output conflict"@,
            },
    {
        match self {
            GenError::MalformedInput(_) => "malformed input",
            GenError::ConflictingDefinition(_) => "conflicting definition",
            GenError::InvalidInput(_) => "invalid input",
            GenError::OutputConflict => "output conflict",
        }
    }
}

} // verus!
