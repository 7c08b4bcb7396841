//! Why a compilation stops.
use vstd::prelude::*;
use vstd::string::StringExecFns;

verus! {

/// The failures of a compilation. None is retried: the first one ends it.
#[derive(Clone, Copy, Debug, PartialEq, Eq)]
pub enum CompileError {
    /// A `]` was scanned while no loop was open.
    UnmatchedCloseBracket,
    /// The call of the runtime's "read one character" produced no value.
    IoBridge,
    /// The call of the runtime's allocator produced no address.
    AllocBridge,
}

impl CompileError {
    /// The text of each failure.
    pub open spec fn text(self) -> Seq<char> {
        match self {
            CompileError::UnmatchedCloseBracket => "error: unmatched `]`"@,
            CompileError::IoBridge => "getchar returned void"@,
            CompileError::AllocBridge => "calloc returned void"@,
        }
    }

    /// A description of the failure for the user.
    pub fn message(&self) -> (s: String)
        ensures
            s@ == self.text(),
    {
        match self {
            CompileError::UnmatchedCloseBracket => String::from_str("error: unmatched `]`"),
            CompileError::IoBridge => String::from_str("getchar returned void"),
            CompileError::AllocBridge => String::from_str("calloc returned void"),
        }
    }
}

} // verus!
