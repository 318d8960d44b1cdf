//! The flags and targets of one run, and which of the three modes they ask
//! for. Argument parsing itself happens outside; this is the parsed shape.

use vstd::prelude::*;

verus! {

/// One invocation's arguments.
pub struct Cli {
    /// Files or directories to remove, or (with restore) at most one filter
    /// pattern.
    pub targets: Vec<Vec<u8>>,
    /// Remove directories and their contents recursively.
    pub recursive: bool,
    /// Ignore nonexistent targets; skip confirmation when not interactive.
    pub force: bool,
    /// Prompt before every removal. Accepted for compatibility; prompting in
    /// interactive mode happens regardless.
    pub interactive: bool,
    /// Remove empty directories.
    pub dir: bool,
    /// Explain what is being done.
    pub verbose: bool,
    /// Empty the trash.
    pub cleanup: bool,
    /// Restore items from the trash.
    pub restore: bool,
}

/// What one run does.
#[derive(Clone, Copy, Debug, PartialEq, Eq, Structural)]
pub enum RunMode {
    /// Empty the trash.
    Cleanup,
    /// Restore items out of the trash.
    Restore,
    /// Move the targets into the trash.
    Delete,
}

impl Cli {
    /// Which mode the flags ask for: cleanup first, then restore, else
    /// deletion.
    pub fn mode(&self) -> (r: RunMode)
        ensures
            r == (if self.cleanup {
                RunMode::Cleanup
            } else if self.restore {
                RunMode::Restore
            } else {
                RunMode::Delete
            }),
    {
        if self.cleanup {
            RunMode::Cleanup
        } else if self.restore {
            RunMode::Restore
        } else {
            RunMode::Delete
        }
    }
}

} // verus!
