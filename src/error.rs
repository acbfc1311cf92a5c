use vstd::prelude::*;

verus! {

/// The conditions that end a run before any file is renamed.
#[derive(Debug, Clone, Copy, PartialEq, Eq, Structural)]
pub enum StripError {
    /// No candidate is left after resolution or prefix filtering.
    NoFilesRemaining,
    /// No non-empty prefix is shared by every candidate name.
    PrefixNotFound,
    /// An explicit file list was given together with a source directory.
    ConflictingSources,
}

/// The diagnostic line printed for each error.
pub open spec fn message_of(e: StripError) -> Seq<char> {
    match e {
        StripError::NoFilesRemaining => "Error: None of the specified files could be affected"@,
        StripError::PrefixNotFound => "Couldn't guess a prefix!"@,
        StripError::ConflictingSources => "Error: a file list and a source directory cannot be used together"@,
    }
}

impl StripError {
    pub fn message(&self) -> (r: &'static str)
        ensures
            r@ == message_of(*self),
    {
        match self {
            StripError::NoFilesRemaining => "Error: None of the specified files could be affected",
            StripError::PrefixNotFound => "Couldn't guess a prefix!",
            StripError::ConflictingSources => "Error: a file list and a source directory cannot be used together",
        }
    }
}

} // verus!
