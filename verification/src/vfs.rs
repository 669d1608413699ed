//! What file operations report.
use vstd::prelude::*;

verus! {

/// File system error codes.
#[derive(Debug, Clone, Copy, PartialEq, Eq, Structural)]
pub enum VfsError {
    IoError,
    BadPath,
    NotFound,
    NoSpace,
    AlreadyExists,
    NotDirectory,
    PermissionDenied,
}

/// The numbers by which system calls report the errors that flushing a file can meet.
#[derive(Debug, Clone, Copy, PartialEq, Eq, Structural)]
pub struct Errnos {
    pub io: u64,
    pub no_space: u64,
}

impl Errnos {
    pub open spec fn number(self, e: VfsError) -> u64 {
        match e {
            VfsError::NoSpace => self.no_space,
            _ => self.io,
        }
    }

    pub fn number_of(&self, e: VfsError) -> (r: u64)
        ensures
            r == self.number(e),
    {
        match e {
            VfsError::NoSpace => self.no_space,
            _ => self.io,
        }
    }
}

} // verus!
