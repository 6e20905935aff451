use std::io::Error;
use vstd::prelude::*;

verus! {

/// An error of an I/O operation.
#[verifier::external_type_specification]
#[verifier::external_body]
pub struct ExIoError(Error);

/// Information regarding a filesystem error
#[derive(Debug)]
pub struct ErrorReport<'a> {
    /// Operation that caused the error
    pub operation: Operation,
    /// Path where the error occurred, as text
    pub path: &'a str,
    /// The error
    pub error: Error,
}

/// Operation that caused the error
#[derive(Debug, Clone, Copy, PartialEq, Eq)]
pub enum Operation {
    /// Error is caused by calling `std::fs::symlink_metadata`.
    SymlinkMetadata,
    /// Error is caused by calling `std::fs::read_dir`.
    ReadDirectory,
    /// Error when trying to access a `std::fs::DirEntry` of one of the
    /// element of `std::fs::read_dir`.
    AccessEntry,
}

impl<'a> ErrorReport<'a> {
    /// Do nothing
    pub fn silent(&self) {
    }
}

impl Operation {
    /// The name of each operation.
    pub open spec fn spec_name(self) -> &'static str {
        match self {
            Operation::SymlinkMetadata => "symlink_metadata",
            Operation::ReadDirectory => "read_dir",
            Operation::AccessEntry => "access entry",
        }
    }

    /// Get name of the operation.
    pub fn name(self) -> (name: &'static str)
        ensures
            name == self.spec_name(),
    {
        match self {
            Operation::SymlinkMetadata => "symlink_metadata",
            Operation::ReadDirectory => "read_dir",
            Operation::AccessEntry => "access entry",
        }
    }
}

} // verus!
