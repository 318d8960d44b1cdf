//! A safe-deletion library: files are moved into a recoverable holding area
//! instead of being destroyed, and can be listed and restored later.
//!
//! Paths, file names and record contents are modelled as byte strings
//! (`Vec<u8>`), the form they take on disk.

use vstd::prelude::*;

pub mod bytes;
pub mod cli;
pub mod clock;
pub mod datetime;
pub mod digits;
pub mod handler;
pub mod prompt;
pub mod lines;
pub mod managed;
pub mod naming;
pub mod ops;
pub mod os_trash;
pub mod side_channel;
pub mod trashinfo;

verus! {

/// The ways an operation of this library can fail.
#[derive(Clone, Copy, Debug, PartialEq, Eq, Structural)]
pub enum TrashError {
    /// The target, or the trashed item asked for, does not exist.
    NotFound,
    /// The target is a directory and the flags do not allow removing it.
    IsDirectory,
    /// A prompt would be needed, but no terminal is available and force was not given.
    NonInteractiveRefusal,
    /// A rename into or out of the holding area failed.
    MoveFailed,
    /// Some other filesystem operation failed.
    IoError,
    /// The platform trash facility reported an error.
    BackendFailed,
    /// The restore destination is already occupied.
    RestoreConflict,
    /// More than one filter pattern was supplied to a restore run.
    TooManyPatterns,
}

} // verus!
