//! The error taxonomy shared by constructors, compute kernels and the file layer.

use vstd::prelude::*;

verus! {

/// Why an operation was refused.
#[derive(Clone, Copy, Debug, PartialEq, Eq, Structural, Hash)]
pub enum VortexError {
    /// A dtype or length mismatch, an index out of range, or malformed metadata.
    InvalidArgument,
    /// A constructor was handed a child whose type is not the one its encoding expects.
    MismatchedTypes,
    /// A source could not be read or written, or ended early.
    IOError,
    /// Stored bytes contradict themselves: bad magic, bad offsets, inconsistent child lengths.
    Corruption,
    /// No kernel exists for the request, or an expression uses an operator that is not supported.
    Unsupported,
}

impl VortexError {
    /// The name of the kind.
    pub open spec fn name(self) -> Seq<char> {
        match self {
            VortexError::InvalidArgument => "invalid argument"@,
            VortexError::MismatchedTypes => "mismatched types"@,
            VortexError::IOError => "io error"@,
            VortexError::Corruption => "corruption"@,
            VortexError::Unsupported => "unsupported"@,
        }
    }

    /// The name of the kind, for messages.
    pub fn to_string(&self) -> (s: String)
        ensures
            s@ == self.name(),
    {
        match self {
            VortexError::InvalidArgument => "invalid argument".to_owned(),
            VortexError::MismatchedTypes => "mismatched types".to_owned(),
            VortexError::IOError => "io error".to_owned(),
            VortexError::Corruption => "corruption".to_owned(),
            VortexError::Unsupported => "unsupported".to_owned(),
        }
    }
}

} // verus!
