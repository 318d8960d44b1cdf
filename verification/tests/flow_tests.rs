//! The per-target and restore-flow decisions: answers go in as values, and
//! the contracts tie them to the outcomes.

use saferm::cli::{Cli, RunMode};
use saferm::datetime::DateTime;
use saferm::handler::{create_handler, should_use_os_trash, BackendChoice, Platform, RestorableItem};
use saferm::ops::{
    conflict_question, generate_rename_path, process_target, resolve_conflict,
    restore_display_line, restore_filter, select_restore_items, target_question, trash_method,
    ConflictDecision, Selection, TargetAction, TargetStatus, TrashMethod,
};
use saferm::prompt::{AutoConfirmPrompter, ConfirmKind, MultiSelectKind, Prompter, SelectKind};
use saferm::TrashError;

#[test]
fn test_nonexistent_file_without_force() {
    let r = process_target(TargetStatus::Missing, false, false, false, false, false);
    assert_eq!(r, Err(TrashError::NotFound));
}

#[test]
fn test_nonexistent_file_with_force() {
    let r = process_target(TargetStatus::Missing, false, true, false, false, false);
    assert_eq!(r, Ok(TargetAction::SkippedMissing));
}

#[test]
fn test_directory_without_recursive() {
    let r = process_target(TargetStatus::Dir { empty: false }, false, false, false, false, false);
    assert_eq!(r, Err(TrashError::IsDirectory));
}

#[test]
fn test_directory_with_recursive() {
    let r = process_target(TargetStatus::Dir { empty: false }, true, true, false, false, false);
    assert_eq!(r, Ok(TargetAction::Trash));
}

#[test]
fn test_empty_dir_flag() {
    // -d alone takes an empty directory and refuses a non-empty one.
    let empty = process_target(TargetStatus::Dir { empty: true }, false, true, true, false, false);
    assert_eq!(empty, Ok(TargetAction::Trash));
    let full = process_target(TargetStatus::Dir { empty: false }, false, true, true, false, false);
    assert_eq!(full, Err(TrashError::IsDirectory));
}

#[test]
fn test_denied_prompt() {
    // In a terminal, a declined confirmation is a successful no-op: never a
    // trash call, never an error.
    let r = process_target(TargetStatus::File, false, false, false, true, false);
    assert_eq!(r, Ok(TargetAction::Cancelled));
}

#[test]
fn test_confirmed_prompt_trashes() {
    // The target is trashed exactly when the user said yes — force or not,
    // a terminal always asks first.
    let denied = process_target(TargetStatus::File, false, true, false, true, false);
    assert_eq!(denied, Ok(TargetAction::Cancelled));
    let agreed = process_target(TargetStatus::File, false, true, false, true, true);
    assert_eq!(agreed, Ok(TargetAction::Trash));
}

#[test]
fn test_target_question() {
    // The question is owed exactly where the gates let the target through to
    // a terminal, and names the right subject kind.
    assert_eq!(
        target_question(TargetStatus::File, false, false, false, true),
        Some(ConfirmKind::TrashFile)
    );
    assert_eq!(
        target_question(TargetStatus::Dir { empty: false }, true, false, false, true),
        Some(ConfirmKind::TrashDir)
    );
    assert_eq!(
        target_question(TargetStatus::Symlink, false, false, false, true),
        Some(ConfirmKind::TrashFile)
    );
    // Refused targets, and non-terminal runs, ask nothing.
    assert_eq!(target_question(TargetStatus::Missing, false, false, false, true), None);
    assert_eq!(target_question(TargetStatus::Dir { empty: false }, false, false, false, true), None);
    assert_eq!(target_question(TargetStatus::File, false, true, false, false), None);
}

#[test]
fn test_non_tty_without_force_refuses() {
    let r = process_target(TargetStatus::File, false, false, false, false, false);
    assert_eq!(r, Err(TrashError::NonInteractiveRefusal));
}

#[test]
fn test_multiple_targets_partial_failure() {
    // One target goes through, the other is refused; the run carries on and
    // ends with an overall failure, never aborting the batch.
    let statuses = vec![
        (TargetStatus::File, b"/work/exists.txt".to_vec()),
        (TargetStatus::Dir { empty: false }, b"/work/mydir".to_vec()),
    ];
    let mut all_ok = true;
    let mut trashed: Vec<Vec<u8>> = Vec::new();
    for (status, path) in statuses {
        match process_target(status, false, true, false, false, false) {
            Ok(TargetAction::Trash) => trashed.push(path),
            Ok(_) => {}
            Err(_) => all_ok = false,
        }
    }
    assert!(!all_ok);
    assert_eq!(trashed, vec![b"/work/exists.txt".to_vec()]);
}

#[test]
fn test_symlink_to_dir_without_recursive() {
    // A symlink to a directory counts as a link: no recursive flag needed,
    // and only the link itself is removed.
    let r = process_target(TargetStatus::Symlink, false, true, false, false, false);
    assert_eq!(r, Ok(TargetAction::Trash));
    assert_eq!(trash_method(TargetStatus::Symlink), TrashMethod::RemoveLinkOnly);
    assert_eq!(trash_method(TargetStatus::File), TrashMethod::TrashPayload);
    assert_eq!(trash_method(TargetStatus::Dir { empty: false }), TrashMethod::TrashPayload);
}

#[test]
fn ops_test_trash_file() {
    let r = process_target(TargetStatus::File, false, true, false, false, false);
    assert_eq!(r, Ok(TargetAction::Trash));
}

#[test]
fn test_restore_filter() {
    assert_eq!(restore_filter(&vec![]), Ok(None));
    assert_eq!(restore_filter(&vec![b"alpha".to_vec()]), Ok(Some(b"alpha".to_vec())));
    assert_eq!(
        restore_filter(&vec![b"a".to_vec(), b"b".to_vec()]),
        Err(TrashError::TooManyPatterns)
    );
}

#[test]
fn test_select_restore_items() {
    match select_restore_items(2, false, true, None) {
        Ok(Selection::All) => {}
        _ => panic!("forced non-interactive runs take everything"),
    }
    assert!(matches!(
        select_restore_items(2, false, false, None),
        Err(TrashError::NonInteractiveRefusal)
    ));
    match select_restore_items(2, true, false, Some(vec![])) {
        Ok(Selection::Cancelled) => {}
        _ => panic!("an empty pick cancels"),
    }
    match select_restore_items(2, true, false, Some(vec![1])) {
        Ok(Selection::Chosen(v)) => assert_eq!(v, vec![1]),
        _ => panic!("the picked indices come back exactly"),
    }
}

#[test]
fn test_generate_rename_path() {
    let dest = b"/home/u/a.txt".to_vec();
    let free = generate_rename_path(&dest, &vec![]);
    assert_eq!(free, b"/home/u/a.restored.txt".to_vec());
    let taken = vec![b"a.restored.txt".to_vec(), b"a.restored2.txt".to_vec()];
    assert_eq!(generate_rename_path(&dest, &taken), b"/home/u/a.restored3.txt".to_vec());
    assert_eq!(generate_rename_path(&b"/x/readme".to_vec(), &vec![]), b"/x/readme.restored".to_vec());
}

#[test]
fn test_conflict_question() {
    let dest = b"/home/u/a.txt".to_vec();
    let siblings = vec![b"a.txt".to_vec()];
    // Asked exactly when the destination is occupied in a terminal.
    assert!(conflict_question(false, true, &dest, &siblings).is_none());
    assert!(conflict_question(true, false, &dest, &siblings).is_none());
    let (options, default_index) =
        conflict_question(true, true, &dest, &siblings).expect("occupied in a terminal asks");
    assert_eq!(options.len(), 3);
    assert_eq!(options[0], b"overwrite".to_vec());
    assert_eq!(options[1], b"skip".to_vec());
    assert_eq!(options[2], b"/home/u/a.restored.txt".to_vec());
    // Skip is the default.
    assert_eq!(default_index, 1);
}

#[test]
fn test_resolve_conflict() {
    let dest = b"/home/u/a.txt".to_vec();
    let siblings = vec![b"a.txt".to_vec()];
    // A free destination proceeds; nothing was asked.
    assert!(matches!(
        resolve_conflict(false, true, &dest, &siblings, None),
        ConflictDecision::Proceed
    ));
    // Occupied, no terminal: skipped, never overwritten.
    assert!(matches!(
        resolve_conflict(true, false, &dest, &siblings, None),
        ConflictDecision::SkipItem
    ));
    // The answers decide exactly: 0 overwrites, 1 (the default) skips,
    // anything else renames to the fresh sibling the question offered.
    assert!(matches!(
        resolve_conflict(true, true, &dest, &siblings, Some(0)),
        ConflictDecision::Overwrite
    ));
    assert!(matches!(
        resolve_conflict(true, true, &dest, &siblings, Some(1)),
        ConflictDecision::SkipItem
    ));
    match resolve_conflict(true, true, &dest, &siblings, Some(2)) {
        ConflictDecision::RenameTo(p) => assert_eq!(p, b"/home/u/a.restored.txt".to_vec()),
        _ => panic!("the third choice renames"),
    }
}

#[test]
fn test_auto_confirm_prompter() {
    // The library's own non-blocking prompter: yes to everything, the
    // default choice, every option of a multi-choice.
    let p = AutoConfirmPrompter;
    assert_eq!(p.confirm(ConfirmKind::CleanupManaged, &Vec::new()), Ok(true));
    let options = vec![b"overwrite".to_vec(), b"skip".to_vec(), b"rename".to_vec()];
    assert_eq!(p.select(SelectKind::RestoreConflict, &Vec::new(), &options, 1), Ok(1));
    assert_eq!(
        p.multi_select(MultiSelectKind::RestoreSelect, &options, &vec![false, false, false]),
        Ok(vec![0, 1, 2])
    );
}

#[test]
fn test_display_line() {
    let with_date = RestorableItem {
        id: b"a.txt".to_vec(),
        original_path: b"/home/u/a.txt".to_vec(),
        display_name: b"a.txt".to_vec(),
        deleted_at: Some(DateTime { year: 2023, month: 5, day: 7, hour: 9, minute: 30, second: 5 }),
    };
    assert_eq!(restore_display_line(&with_date), b"/home/u/a.txt (2023-05-07 09:30:05)".to_vec());
    let without = RestorableItem { deleted_at: None, ..with_date };
    assert_eq!(restore_display_line(&without), b"/home/u/a.txt (unknown)".to_vec());
}

#[test]
fn test_create_handler() {
    let os = b"os".to_vec();
    let managed = b"managed".to_vec();
    let bogus = b"bogus".to_vec();
    assert_eq!(create_handler(Some(&os), Platform::Other, false), (BackendChoice::Os, false));
    assert_eq!(
        create_handler(Some(&managed), Platform::MacOs, true),
        (BackendChoice::Managed, false)
    );
    // An unrecognized override is reported and falls through to the
    // heuristic, never a hard failure.
    assert_eq!(create_handler(Some(&bogus), Platform::Linux, true), (BackendChoice::Os, true));
    assert_eq!(create_handler(None, Platform::Linux, false), (BackendChoice::Managed, false));
    assert_eq!(create_handler(None, Platform::MacOs, false), (BackendChoice::Os, false));
}

#[test]
fn test_should_use_os_trash() {
    assert!(should_use_os_trash(Platform::MacOs, false));
    assert!(should_use_os_trash(Platform::Linux, true));
    assert!(!should_use_os_trash(Platform::Linux, false));
    assert!(!should_use_os_trash(Platform::Other, true));
}

#[test]
fn test_run_mode() {
    let mut cli = Cli {
        targets: vec![],
        recursive: false,
        force: false,
        interactive: false,
        dir: false,
        verbose: false,
        cleanup: false,
        restore: false,
    };
    assert_eq!(cli.mode(), RunMode::Delete);
    cli.restore = true;
    assert_eq!(cli.mode(), RunMode::Restore);
    cli.cleanup = true;
    assert_eq!(cli.mode(), RunMode::Cleanup);
}
