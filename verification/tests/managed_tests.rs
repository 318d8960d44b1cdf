//! The managed holding area, driven on its in-memory image.

use saferm::datetime::DateTime;
use saferm::managed::{CleanupOutcome, InfoFile, ManagedTrash, TrashStore};
use saferm::naming::unique_name;
use saferm::TrashError;

fn dt() -> DateTime {
    DateTime { year: 2023, month: 5, day: 7, hour: 9, minute: 30, second: 5 }
}

fn handler() -> ManagedTrash {
    ManagedTrash::with_base_dir(b"/base".to_vec())
}

#[test]
fn managed_test_trash_file() {
    let h = handler();
    let mut store = TrashStore::empty();
    let plan = h.trash(&mut store, b"test.txt", b"/src/test.txt", &dt());
    assert_eq!(plan.stored_name, b"test.txt".to_vec());
    assert_eq!(plan.payload_from, b"/src/test.txt".to_vec());
    assert_eq!(plan.payload_to, b"/base/files/test.txt".to_vec());
    assert_eq!(plan.info_path, b"/base/info/test.txt.trashinfo".to_vec());
    let content = String::from_utf8(plan.info_content).unwrap();
    assert!(content.contains("[Trash Info]"));
    assert!(content.contains("Path="));
    assert!(content.contains("DeletionDate="));
}

#[test]
fn test_trash_name_collision() {
    let h = handler();
    let mut store = TrashStore::empty();
    let first = h.trash(&mut store, b"dup.txt", b"/src/dup.txt", &dt());
    let second = h.trash(&mut store, b"dup.txt", b"/src/dup.txt", &dt());
    assert_eq!(first.stored_name, b"dup.txt".to_vec());
    assert_eq!(second.stored_name, b"dup.1.txt".to_vec());
    // Neither move lands on the other's payload.
    assert_ne!(first.payload_to, second.payload_to);
    let items = h.list_restorable(&store, None);
    assert_eq!(items.len(), 2);
}

#[test]
fn test_unique_name_probing() {
    let existing = vec![b"dup.txt".to_vec(), b"dup.1.txt".to_vec()];
    assert_eq!(unique_name(b"dup.txt", &existing), b"dup.2.txt".to_vec());
    assert_eq!(unique_name(b"other.txt", &existing), b"other.txt".to_vec());
    let plain = vec![b"notes".to_vec()];
    assert_eq!(unique_name(b"notes", &plain), b"notes.1".to_vec());
    let hidden = vec![b".bashrc".to_vec()];
    assert_eq!(unique_name(b".bashrc", &hidden), b".bashrc.1".to_vec());
}

#[test]
fn test_round_trip() {
    // Trash, then restore by the id the trash step chose: the payload comes
    // back from exactly where it went, and the item is gone afterwards.
    let h = handler();
    let mut store = TrashStore::empty();
    let plan = h.trash(&mut store, b"keep.txt", b"/src/keep.txt", &dt());
    let items = h.list_restorable(&store, None);
    assert_eq!(items.len(), 1);
    assert_eq!(items[0].id, plan.stored_name);
    assert_eq!(items[0].original_path, b"/src/keep.txt".to_vec());
    let restore = h
        .restore_to(&mut store, &items[0].id, b"/src/keep.txt")
        .expect("a listed item restores");
    assert_eq!(restore.payload_from, plan.payload_to);
    assert_eq!(restore.payload_to, b"/src/keep.txt".to_vec());
    assert_eq!(restore.info_path, plan.info_path);
    assert!(h.list_restorable(&store, None).is_empty());
}

#[test]
fn test_restore_to_file() {
    let h = handler();
    let mut store = TrashStore::empty();
    h.trash(&mut store, b"restore_me.txt", b"/src/restore_me.txt", &dt());
    let items = h.list_restorable(&store, None);
    assert_eq!(items.len(), 1);
    let plan = h.restore_to(&mut store, &items[0].id, b"/src/restored.txt").unwrap();
    assert_eq!(plan.payload_to, b"/src/restored.txt".to_vec());
    assert!(h.list_restorable(&store, None).is_empty());
}

#[test]
fn test_restore_to_original_path() {
    let h = handler();
    let mut store = TrashStore::empty();
    h.trash(&mut store, b"original.txt", b"/src/original.txt", &dt());
    let items = h.list_restorable(&store, None);
    let plan = h.restore_to(&mut store, &items[0].id, &items[0].original_path).unwrap();
    assert_eq!(plan.payload_to, b"/src/original.txt".to_vec());
}

#[test]
fn test_restore_not_found() {
    let h = handler();
    let mut store = TrashStore::empty();
    let r = h.restore_to(&mut store, b"nonexistent", b"/tmp/dest.txt");
    assert_eq!(r.err(), Some(TrashError::NotFound));
}

#[test]
fn test_cleanup() {
    let h = handler();
    let payload = vec![b"a.txt".to_vec(), b"b.txt".to_vec()];
    let infos = vec![InfoFile { name: b"a.txt.trashinfo".to_vec(), content: b"[Trash Info]".to_vec() }];
    let mut store = TrashStore::from_listing(payload, &infos);
    // A non-empty area owes the user a question; confirmed, every payload is
    // listed for removal — a payload without a readable record too.
    assert!(h.cleanup_needs_confirmation(&store));
    let outcome = h.cleanup(&mut store, true);
    match outcome {
        CleanupOutcome::Cleaned(paths) => {
            assert_eq!(paths, vec![b"/base/files/a.txt".to_vec(), b"/base/files/b.txt".to_vec()]);
        }
        _ => panic!("a confirmed cleanup of a non-empty area cleans"),
    }
    assert!(h.list_restorable(&store, None).is_empty());
    assert!(!h.cleanup_needs_confirmation(&store));
}

#[test]
fn test_cleanup_declined() {
    // A declined cleanup cancels and leaves the holding area exactly as it
    // was: a cleanup never purges against a no.
    let h = handler();
    let mut store = TrashStore::empty();
    h.trash(&mut store, b"keep.txt", b"/src/keep.txt", &dt());
    let outcome = h.cleanup(&mut store, false);
    assert!(matches!(outcome, CleanupOutcome::Cancelled));
    let items = h.list_restorable(&store, None);
    assert_eq!(items.len(), 1);
    assert_eq!(items[0].id, b"keep.txt".to_vec());
}

#[test]
fn test_cleanup_empty() {
    // An empty holding area owes no question and cleans up trivially,
    // whatever answer is handed in — any number of times.
    let h = handler();
    let mut store = TrashStore::empty();
    assert!(!h.cleanup_needs_confirmation(&store));
    for confirmed in [false, true, false] {
        let outcome = h.cleanup(&mut store, confirmed);
        assert!(matches!(outcome, CleanupOutcome::NothingToClean));
    }
}

#[test]
fn test_list_restorable() {
    let h = handler();
    let mut store = TrashStore::empty();
    h.trash(&mut store, b"alpha.txt", b"/spot/alpha.txt", &dt());
    h.trash(&mut store, b"beta.txt", b"/spot/beta.txt", &dt());
    let all = h.list_restorable(&store, None);
    assert_eq!(all.len(), 2);
    let filter = b"alpha".to_vec();
    let filtered = h.list_restorable(&store, Some(&filter));
    assert_eq!(filtered.len(), 1);
    assert!(String::from_utf8(filtered[0].original_path.clone()).unwrap().contains("alpha.txt"));
    let none = b"nonexistent".to_vec();
    assert!(h.list_restorable(&store, Some(&none)).is_empty());
}

#[test]
fn test_list_restorable_empty_trash() {
    let h = handler();
    let store = TrashStore::empty();
    assert!(h.list_restorable(&store, None).is_empty());
}

#[test]
fn test_from_listing_surfaces_only_valid_records() {
    let payload = vec![b"here.txt".to_vec()];
    let infos = vec![
        // Valid: payload exists and the record parses.
        InfoFile {
            name: b"here.txt.trashinfo".to_vec(),
            content: b"[Trash Info]\nPath=/x/here.txt\n".to_vec(),
        },
        // Dangling: no payload under that name.
        InfoFile {
            name: b"gone.txt.trashinfo".to_vec(),
            content: b"[Trash Info]\nPath=/x/gone.txt\n".to_vec(),
        },
        // Corrupt: no path named.
        InfoFile { name: b"here.txt.trashinfo.bak".to_vec(), content: b"junk".to_vec() },
    ];
    let store = TrashStore::from_listing(payload, &infos);
    let h = handler();
    let items = h.list_restorable(&store, None);
    assert_eq!(items.len(), 1);
    assert_eq!(items[0].id, b"here.txt".to_vec());
    assert_eq!(items[0].original_path, b"/x/here.txt".to_vec());
    assert_eq!(items[0].display_name, b"here.txt".to_vec());
}

#[test]
fn test_resolve_base_dir() {
    assert_eq!(
        ManagedTrash::resolve_base_dir(Some(b"/override".to_vec()), Some(b"/data".to_vec()), None),
        b"/override".to_vec()
    );
    assert_eq!(
        ManagedTrash::resolve_base_dir(None, Some(b"/data".to_vec()), Some(b"/home/u".to_vec())),
        b"/data/saferm/trash".to_vec()
    );
    assert_eq!(
        ManagedTrash::resolve_base_dir(None, None, Some(b"/home/u".to_vec())),
        b"/home/u/.local/share/saferm/trash".to_vec()
    );
    assert_eq!(
        ManagedTrash::resolve_base_dir(None, None, None),
        b"/tmp/saferm/saferm/trash".to_vec()
    );
}

#[test]
fn test_example_scenario() {
    // Trash a.txt and b.txt in one run; both are listed; restoring with the
    // filter `a` brings back only a.txt, and b.txt stays trashed.
    let h = handler();
    let mut store = TrashStore::empty();
    let plan_a = h.trash(&mut store, b"a.txt", b"/spot/a.txt", &dt());
    let plan_b = h.trash(&mut store, b"b.txt", b"/spot/b.txt", &dt());
    assert_ne!(plan_a.payload_to, plan_b.payload_to);
    assert_eq!(h.list_restorable(&store, None).len(), 2);
    let filter = b"a".to_vec();
    let chosen = h.list_restorable(&store, Some(&filter));
    assert_eq!(chosen.len(), 1);
    assert_eq!(chosen[0].original_path, b"/spot/a.txt".to_vec());
    let plan = h.restore_to(&mut store, &chosen[0].id, &chosen[0].original_path).unwrap();
    assert_eq!(plan.payload_from, plan_a.payload_to);
    let left = h.list_restorable(&store, None);
    assert_eq!(left.len(), 1);
    assert_eq!(left[0].original_path, b"/spot/b.txt".to_vec());
}

#[test]
fn managed_test_restore_directory() {
    // A directory moves as one payload: same round trip, extensionless name.
    let h = handler();
    let mut store = TrashStore::empty();
    let plan = h.trash(&mut store, b"mydir", b"/src/mydir", &dt());
    assert_eq!(plan.stored_name, b"mydir".to_vec());
    assert_eq!(plan.payload_to, b"/base/files/mydir".to_vec());
    let again = h.trash(&mut store, b"mydir", b"/src/mydir", &dt());
    assert_eq!(again.stored_name, b"mydir.1".to_vec());
    let items = h.list_restorable(&store, None);
    assert_eq!(items.len(), 2);
    h.restore_to(&mut store, b"mydir", b"/src/mydir").unwrap();
    assert_eq!(h.list_restorable(&store, None).len(), 1);
}

#[test]
fn test_backend_name_managed() {
    assert_eq!(handler().backend_name(), "managed");
}
