//! The platform backend: snapshot diffs, side-channel records, the eviction
//! transaction, and the native wrappers run for real.

use saferm::datetime::DateTime;
use saferm::managed::InfoFile;
use saferm::os_trash::{
    evict_temp_name, filter_os_items, find_item, OsCleanupOutcome, OsItem, OsTrash, RestoreTx,
    TxAction, TxEvent, TxPhase,
};
use saferm::side_channel::{new_entries, restore_meta_record, side_channel_items, single_new_entry};
use saferm::TrashError;
use std::io::Write;

fn dt() -> DateTime {
    DateTime { year: 2023, month: 5, day: 7, hour: 9, minute: 30, second: 5 }
}

#[test]
fn test_new_entries() {
    let before = vec![b"a".to_vec(), b"b".to_vec()];
    let after = vec![b"a".to_vec(), b"c".to_vec(), b"b".to_vec(), b"d".to_vec()];
    assert_eq!(new_entries(&before, &after), vec![b"c".to_vec(), b"d".to_vec()]);
    assert_eq!(new_entries(&before, &before), Vec::<Vec<u8>>::new());
}

#[test]
fn test_single_new_entry() {
    let before = vec![b"a".to_vec()];
    let one = vec![b"a".to_vec(), b"new".to_vec()];
    assert_eq!(single_new_entry(&before, &one), Some(b"new".to_vec()));
    // An ambiguous diff keeps no record: zero new entries, or two.
    assert_eq!(single_new_entry(&before, &before), None);
    let two = vec![b"a".to_vec(), b"x".to_vec(), b"y".to_vec()];
    assert_eq!(single_new_entry(&before, &two), None);
}

#[test]
fn test_restore_meta_record() {
    let (name, content) =
        restore_meta_record(b"some-id", b"/home/u/doc.pdf", b"/home/u/.Trash", b"doc.pdf", &dt());
    assert_eq!(name, b"some-id.trashinfo".to_vec());
    assert_eq!(
        content,
        b"[Trash Info]\nPath=/home/u/doc.pdf\nTrashPath=/home/u/.Trash/doc.pdf\nDeletionDate=2023-05-07T09:30:05\n"
            .to_vec()
    );
}

#[test]
fn test_side_channel_items() {
    let records = vec![
        InfoFile {
            name: b"id1.trashinfo".to_vec(),
            content: b"[Trash Info]\nPath=/spot/alpha.txt\nTrashPath=/t/alpha.txt\n".to_vec(),
        },
        InfoFile {
            name: b"id2.trashinfo".to_vec(),
            content: b"[Trash Info]\nPath=/spot/beta.txt\nTrashPath=/t/beta.txt\n".to_vec(),
        },
        InfoFile { name: b"junk.trashinfo".to_vec(), content: b"no path".to_vec() },
    ];
    // The second record's trash entry is gone: pruned, never surfaced.
    let present = vec![true, false, true];
    let (items, stale) = side_channel_items(&records, &present, None);
    assert_eq!(items.len(), 1);
    assert_eq!(items[0].id, b"id1".to_vec());
    assert_eq!(items[0].original_path, b"/spot/alpha.txt".to_vec());
    assert_eq!(items[0].display_name, b"alpha.txt".to_vec());
    assert_eq!(stale, vec![b"id2.trashinfo".to_vec()]);
    // Filtering by path substring.
    let pat = b"alpha".to_vec();
    let (hits, _) = side_channel_items(&records, &vec![true, true, true], Some(&pat));
    assert_eq!(hits.len(), 1);
    let miss = b"nonexistent_xyz".to_vec();
    let (none, _) = side_channel_items(&records, &vec![true, true, true], Some(&miss));
    assert!(none.is_empty());
}

#[test]
fn test_evict_temp_name() {
    assert_eq!(evict_temp_name(42, b"f.txt", &vec![]), b".saferm-evict-42-f.txt".to_vec());
    let taken = vec![b".saferm-evict-42-f.txt".to_vec()];
    assert_eq!(evict_temp_name(42, b"f.txt", &taken), b".saferm-evict-42-2-f.txt".to_vec());
}

#[test]
fn test_os_trash_dirs() {
    assert_eq!(
        OsTrash::info_dir(Some(b"/data".to_vec()), None),
        b"/data/saferm/os-trash-info".to_vec()
    );
    assert_eq!(
        OsTrash::info_dir(None, Some(b"/home/u".to_vec())),
        b"/home/u/.local/share/saferm/os-trash-info".to_vec()
    );
    assert_eq!(OsTrash::trash_dir(Some(b"/home/u".to_vec())), b"/home/u/.Trash".to_vec());
    assert_eq!(OsTrash::trash_dir(None), b"/tmp/.Trash".to_vec());
}

fn drive(tx: &mut RestoreTx, ev: TxEvent) -> Option<TxAction> {
    tx.step(ev);
    tx.next_action()
}

#[test]
fn test_restore_tx_success_with_eviction() {
    let mut tx = RestoreTx::new(
        b"/spot/a.txt".to_vec(),
        b"/else/b.txt".to_vec(),
        true,
        Some(b"/spot/.saferm-evict-1-a.txt".to_vec()),
    );
    match tx.next_action() {
        Some(TxAction::RenameAside { from, to }) => {
            assert_eq!(from, b"/spot/a.txt".to_vec());
            assert_eq!(to, b"/spot/.saferm-evict-1-a.txt".to_vec());
        }
        _ => panic!("the occupant moves aside first"),
    }
    match drive(&mut tx, TxEvent::RenameOk) {
        Some(TxAction::NativeRestore) => {}
        _ => panic!("then the native restore runs"),
    }
    match drive(&mut tx, TxEvent::NativeOk) {
        Some(TxAction::MoveToDest { from, to }) => {
            assert_eq!(from, b"/spot/a.txt".to_vec());
            assert_eq!(to, b"/else/b.txt".to_vec());
        }
        _ => panic!("the payload moves on to the destination"),
    }
    match drive(&mut tx, TxEvent::RenameOk) {
        Some(TxAction::PutBack { from, to }) => {
            assert_eq!(from, b"/spot/.saferm-evict-1-a.txt".to_vec());
            assert_eq!(to, b"/spot/a.txt".to_vec());
        }
        _ => panic!("the occupant comes back"),
    }
    assert!(drive(&mut tx, TxEvent::RenameOk).is_none());
    assert_eq!(tx.phase, TxPhase::Done);
    assert_eq!(tx.outcome, Some(Ok(())));
    assert!(!tx.rollback_failed);
    assert!(!tx.occupant_stranded);
}

#[test]
fn test_restore_tx_rollback_on_failure() {
    // The native restore fails after the eviction: the occupant is put back
    // before the error propagates.
    let mut tx = RestoreTx::new(
        b"/spot/a.txt".to_vec(),
        b"/else/b.txt".to_vec(),
        true,
        Some(b"/spot/.tmp".to_vec()),
    );
    assert!(matches!(tx.next_action(), Some(TxAction::RenameAside { .. })));
    tx.step(TxEvent::RenameOk);
    tx.step(TxEvent::NativeCollision);
    match tx.next_action() {
        Some(TxAction::PutBack { from, to }) => {
            assert_eq!(from, b"/spot/.tmp".to_vec());
            assert_eq!(to, b"/spot/a.txt".to_vec());
        }
        _ => panic!("a failure after eviction rolls back first"),
    }
    tx.step(TxEvent::RenameOk);
    assert_eq!(tx.outcome, Some(Err(TrashError::RestoreConflict)));
    assert!(!tx.rollback_failed);
}

#[test]
fn test_restore_tx_rollback_failure_flagged() {
    let mut tx = RestoreTx::new(
        b"/spot/a.txt".to_vec(),
        b"/else/b.txt".to_vec(),
        true,
        Some(b"/spot/.tmp".to_vec()),
    );
    tx.step(TxEvent::RenameOk);
    tx.step(TxEvent::NativeFailed);
    tx.step(TxEvent::RenameFailed);
    assert_eq!(tx.outcome, Some(Err(TrashError::BackendFailed)));
    // The rollback itself failed: the caller must warn, the occupant sits
    // under the eviction name.
    assert!(tx.rollback_failed);
}

#[test]
fn test_restore_tx_plain_restore() {
    // Restoring to the unoccupied original path needs no eviction and no
    // relocation.
    let mut tx = RestoreTx::new(b"/spot/a.txt".to_vec(), b"/spot/a.txt".to_vec(), false, None);
    assert!(matches!(tx.next_action(), Some(TxAction::NativeRestore)));
    tx.step(TxEvent::NativeOk);
    assert!(tx.next_action().is_none());
    assert_eq!(tx.outcome, Some(Ok(())));
    assert!(!tx.rollback_failed);
    assert!(!tx.occupant_stranded);
}

#[test]
fn test_filter_os_items() {
    let items = vec![
        os_item(b"id-a", b"alpha.txt", "/spot", 0),
        os_item(b"id-b", b"beta.txt", "/spot", 86461),
    ];
    let all = filter_os_items(&items, None);
    assert_eq!(all.len(), 2);
    assert_eq!(all[0].id, b"id-a".to_vec());
    assert_eq!(all[0].original_path, b"/spot/alpha.txt".to_vec());
    assert_eq!(all[0].display_name, b"alpha.txt".to_vec());
    assert_eq!(
        all[0].deleted_at,
        Some(DateTime { year: 1970, month: 1, day: 1, hour: 0, minute: 0, second: 0 })
    );
    let pat = b"beta".to_vec();
    let hits = filter_os_items(&items, Some(&pat));
    assert_eq!(hits.len(), 1);
    assert_eq!(hits[0].id, b"id-b".to_vec());
    let miss = b"nonexistent_xyz".to_vec();
    assert!(filter_os_items(&items, Some(&miss)).is_empty());
}

#[test]
fn test_find_item() {
    let mut items = vec![os_item(b"one", b"a", "/x", 0), os_item(b"two", b"b", "/x", 0)];
    let found = find_item(&mut items, b"two").expect("a listed id is found");
    assert_eq!(found.name, b"b".to_vec());
    assert_eq!(items.len(), 1);
    assert!(find_item(&mut items, b"two").is_none());
}

#[test]
fn test_os_backend_name() {
    assert_eq!(OsTrash.backend_name(), "os");
}

#[test]
fn test_os_trash_refuses_rootward_paths() {
    // A path without a real final file name never reaches the facility,
    // which would collapse it onto its parent — and panic when that parent
    // is the root.
    let os = OsTrash;
    assert_eq!(os.trash(b"/.."), Err(TrashError::BackendFailed));
    assert_eq!(os.trash(b"/"), Err(TrashError::BackendFailed));
    assert_eq!(os.trash(b"/home/u/.."), Err(TrashError::BackendFailed));
    assert_eq!(os.trash(b"."), Err(TrashError::BackendFailed));
    assert_eq!(os.trash(b""), Err(TrashError::BackendFailed));
}

#[test]
fn test_os_cleanup_empty() {
    // An empty platform listing is nothing to clean, whatever answer is
    // handed in — no question is owed and nothing is purged, repeatably.
    let os = OsTrash;
    for confirmed in [false, true, false] {
        assert_eq!(os.cleanup(Vec::new(), confirmed), Ok(OsCleanupOutcome::NothingToClean));
    }
    assert!(!os.cleanup_needs_confirmation(&Vec::new()));
}

#[test]
fn test_os_cleanup_declined() {
    // A decline cancels: the listed items are never handed to the purge.
    let os = OsTrash;
    let items = vec![os_item(b"one", b"a", "/x", 0)];
    assert!(os.cleanup_needs_confirmation(&items));
    assert_eq!(os.cleanup(items, false), Ok(OsCleanupOutcome::Cancelled));
}

#[test]
fn test_os_trash_round_trip() {
    // Exercises the real platform facility end to end where one is
    // available: trash a fresh file, find it in the listing, restore it
    // natively. On a host without a usable trash facility the deletion
    // fails cleanly and there is nothing further to check.
    let dir = tempfile::tempdir().unwrap();
    let file = tempfile::Builder::new()
        .prefix("os_round_trip")
        .tempfile_in(dir.path())
        .unwrap();
    let (mut f, temp_path) = file.keep().unwrap();
    f.write_all(b"payload").unwrap();
    drop(f);
    let path = temp_path;
    let os = OsTrash;
    let path_bytes = path.to_str().unwrap().as_bytes().to_vec();
    match os.trash(&path_bytes) {
        Ok(()) => {
            assert!(!path.exists(), "the target must be gone after trashing");
            let mut listing = saferm::os_trash::raw_listing().unwrap();
            let found = listing.iter().position(|it| it.original_path == path_bytes);
            let idx = found.expect("the trashed file must be listed");
            let id = listing[idx].id.clone();
            let item = find_item(&mut listing, &id).unwrap();
            os.restore_native(item).unwrap();
            assert!(path.exists(), "the restored file must be back");
        }
        Err(e) => {
            // No trash facility here; the error is the backend's.
            assert_eq!(e, TrashError::BackendFailed);
        }
    }
}

fn os_item(id: &[u8], name: &[u8], parent: &str, time_deleted: i64) -> OsItem {
    let name_s = String::from_utf8(name.to_vec()).unwrap();
    let handle = trash::TrashItem {
        id: String::from_utf8(id.to_vec()).unwrap().into(),
        name: name_s.clone().into(),
        original_parent: std::path::PathBuf::from(parent),
        time_deleted,
    };
    let mut original_path = parent.as_bytes().to_vec();
    original_path.push(b'/');
    original_path.extend_from_slice(name);
    OsItem {
        handle,
        id: id.to_vec(),
        name: name.to_vec(),
        original_path,
        time_deleted,
    }
}
