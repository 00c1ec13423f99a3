//! The error kinds that the note operations report.

use vstd::prelude::*;

verus! {

/// Why a note operation failed.
///
/// `NotFound` covers an unknown slug or an unknown version number,
/// `Ambiguous` an identifier that matches more than one note where a
/// unique match is required, `InvalidOperation` a rollback below
/// version 1, and `IoError` a filesystem failure, carrying the
/// offending path.
#[derive(Debug, Clone)]
pub enum NoteError {
    NotFound,
    Ambiguous,
    InvalidOperation,
    IoError(String),
}

impl NoteError {
    /// A short human-readable description, for the shell around the library.
    pub fn describe(&self) -> (r: &'static str)
        ensures
            r@ == match self {
                NoteError::NotFound => "note or version not found"@,
                NoteError::Ambiguous => "identifier matches more than one note"@,
                NoteError::InvalidOperation => "no previous version to roll back to"@,
                NoteError::IoError(_) => "filesystem operation failed"@,
            },
    {
        match self {
            NoteError::NotFound => "note or version not found",
            NoteError::Ambiguous => "identifier matches more than one note",
            NoteError::InvalidOperation => "no previous version to roll back to",
            NoteError::IoError(_) => "filesystem operation failed",
        }
    }
}

} // verus!
