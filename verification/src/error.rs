//! Error taxonomy: file-grammar violations, sanity (drift/consistency)
//! findings, and the top-level error that a run surfaces.

use crate::sql_file::SyntaxErrorMessage;
use vstd::prelude::*;

verus! {

/// A failure to load one SQL file: a grammar violation at a 0-based line
/// index, or the file could not be read or named at all.
#[derive(Debug, Clone, Copy, PartialEq, Eq, Structural)]
pub enum SQLFileError {
    SyntaxError(usize, SyntaxErrorMessage),
    CouldNoReadFile,
    CouldNotGetFilename,
}

/// A sanity-check finding: a file no longer defines a tag it was migrated
/// under, a migrated group's content changed, a ledger record names a file
/// that no longer exists, or a file was never migrated.
#[derive(Debug, PartialEq, Eq)]
pub enum SanityError {
    FileNoContainTag(String, String),
    FileQuerySetChanged(String, String),
    FileNoExist(String),
    FileNotMigrated(String),
}

/// The mathematical shape of a sanity finding.
pub ghost enum SanityErrorV {
    FileNoContainTag(Seq<char>, Seq<char>),
    FileQuerySetChanged(Seq<char>, Seq<char>),
    FileNoExist(Seq<char>),
    FileNotMigrated(Seq<char>),
}

impl View for SanityError {
    type V = SanityErrorV;

    open spec fn view(&self) -> SanityErrorV {
        match self {
            SanityError::FileNoContainTag(f, t) => SanityErrorV::FileNoContainTag(f@, t@),
            SanityError::FileQuerySetChanged(f, t) => SanityErrorV::FileQuerySetChanged(f@, t@),
            SanityError::FileNoExist(f) => SanityErrorV::FileNoExist(f@),
            SanityError::FileNotMigrated(f) => SanityErrorV::FileNotMigrated(f@),
        }
    }
}

/// The single structured failure a top-level operation returns.
#[derive(Debug)]
pub enum OspreyError {
    NotADirectory,
    SQLFile(SQLFileError),
    Storage(String),
    Io(String),
    Sanity(SanityError),
}

} // verus!
