//! The asking capability: a yes/no question, one choice among options, or a
//! multi-choice. How a question is worded and rendered is outside the
//! library; a question is named by kind and carries its subject. The
//! answers come back to the deciding functions as plain values, so every
//! answer-to-outcome rule is proved there and nothing is assumed of the
//! asker. The auto-confirming implementation below is part of the library
//! and never blocks.

use vstd::prelude::*;

use crate::TrashError;

verus! {

/// Which yes/no question is being asked; the subject names the target.
#[derive(Clone, Copy, Debug, PartialEq, Eq, Structural)]
pub enum ConfirmKind {
    /// Move this file to the trash?
    TrashFile,
    /// Move this directory and its contents to the trash?
    TrashDir,
    /// Empty the managed holding area?
    CleanupManaged,
    /// Purge the platform trash?
    CleanupOs,
}

/// Which single choice is being offered.
#[derive(Clone, Copy, Debug, PartialEq, Eq, Structural)]
pub enum SelectKind {
    /// The restore destination is occupied: overwrite, skip, or rename.
    RestoreConflict,
}

/// Which multi-choice is being offered.
#[derive(Clone, Copy, Debug, PartialEq, Eq, Structural)]
pub enum MultiSelectKind {
    /// Which of the listed items to restore.
    RestoreSelect,
}

/// A capability that can ask the user questions. Any answer stays within the
/// options offered.
pub trait Prompter {
    /// Asks a yes/no question about `subject`.
    fn confirm(&self, kind: ConfirmKind, subject: &Vec<u8>) -> (r: Result<bool, TrashError>);

    /// Offers one choice among `options` about `subject`; `default_index` is
    /// the answer where the implementation cannot really ask.
    fn select(
        &self,
        kind: SelectKind,
        subject: &Vec<u8>,
        options: &Vec<Vec<u8>>,
        default_index: usize,
    ) -> (r: Result<usize, TrashError>)
        requires
            default_index < options.len(),
        ensures
            r matches Ok(k) ==> k < options.len(),
    ;

    /// Offers a multi-choice among `options`; the result lists the indices
    /// picked.
    fn multi_select(
        &self,
        kind: MultiSelectKind,
        options: &Vec<Vec<u8>>,
        defaults: &Vec<bool>,
    ) -> (r: Result<Vec<usize>, TrashError>)
        requires
            defaults.len() == options.len(),
        ensures
            r matches Ok(v) ==> forall|k: int| 0 <= k < v@.len() ==> v@[k] < options.len(),
    ;
}

/// Answers yes to everything, takes the default choice, and picks every
/// option of a multi-choice. For non-interactive runs and tests.
pub struct AutoConfirmPrompter;

impl Prompter for AutoConfirmPrompter {
    fn confirm(&self, kind: ConfirmKind, subject: &Vec<u8>) -> (r: Result<bool, TrashError>) {
        Ok(true)
    }

    fn select(
        &self,
        kind: SelectKind,
        subject: &Vec<u8>,
        options: &Vec<Vec<u8>>,
        default_index: usize,
    ) -> (r: Result<usize, TrashError>) {
        Ok(default_index)
    }

    fn multi_select(
        &self,
        kind: MultiSelectKind,
        options: &Vec<Vec<u8>>,
        defaults: &Vec<bool>,
    ) -> (r: Result<Vec<usize>, TrashError>) {
        let mut v: Vec<usize> = Vec::new();
        let mut i: usize = 0;
        while i < options.len()
            invariant
                i <= options.len(),
                v@.len() == i,
                forall|k: int| 0 <= k < v@.len() ==> v@[k] < options.len(),
            decreases options.len() - i,
        {
            v.push(i);
            i += 1;
        }
        Ok(v)
    }
}

} // verus!
