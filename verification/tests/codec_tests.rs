//! The record and timestamp codecs, on concrete values.

use saferm::clock::datetime_from_unix;
use saferm::datetime::{format_datetime, format_datetime_display, parse_datetime, DateTime};
use saferm::side_channel::uuid_v4;
use saferm::trashinfo::{
    format_restore_meta, format_trashinfo, parse_restore_meta, parse_trashinfo,
};

fn dt(year: u16, month: u8, day: u8, hour: u8, minute: u8, second: u8) -> DateTime {
    DateTime { year, month, day, hour, minute, second }
}

#[test]
fn test_datetime_format_exact() {
    let d = dt(2023, 5, 7, 9, 30, 5);
    assert_eq!(format_datetime(&d), b"2023-05-07T09:30:05".to_vec());
    assert_eq!(format_datetime_display(&d), b"2023-05-07 09:30:05".to_vec());
}

#[test]
fn test_datetime_parse_round_trip() {
    let d = dt(1999, 12, 31, 23, 59, 59);
    let text = format_datetime(&d);
    assert_eq!(parse_datetime(&text), Some(d));
}

#[test]
fn test_datetime_parse_exact_value() {
    let parsed = parse_datetime(b"2024-02-29T00:00:00");
    assert_eq!(parsed, Some(dt(2024, 2, 29, 0, 0, 0)));
}

#[test]
fn test_datetime_parse_rejects_bad_input() {
    assert_eq!(parse_datetime(b"2023-13-07T09:30:05"), None);
    assert_eq!(parse_datetime(b"2023-02-30T09:30:05"), None);
    assert_eq!(parse_datetime(b"2023-02-29T09:30:05"), None);
    assert_eq!(parse_datetime(b"2023-05-07 09:30:05"), None);
    assert_eq!(parse_datetime(b"2023-05-07T09:30:0"), None);
    assert_eq!(parse_datetime(b"2023-05-07T24:00:00"), None);
    assert_eq!(parse_datetime(b""), None);
}

#[test]
fn test_trashinfo_format_exact() {
    let d = dt(2023, 5, 7, 9, 30, 5);
    let content = format_trashinfo(b"/home/u/a.txt", &d);
    assert_eq!(
        content,
        b"[Trash Info]\nPath=/home/u/a.txt\nDeletionDate=2023-05-07T09:30:05\n".to_vec()
    );
}

#[test]
fn test_trashinfo_parse_round_trip() {
    let d = dt(2023, 5, 7, 9, 30, 5);
    let content = format_trashinfo(b"/home/u/with space.txt", &d);
    let rec = parse_trashinfo(&content).expect("the record it wrote must read back");
    assert_eq!(rec.original_path, b"/home/u/with space.txt".to_vec());
    assert_eq!(rec.deleted_at, Some(d));
}

#[test]
fn test_trashinfo_missing_path_rejected() {
    assert!(parse_trashinfo(b"[Trash Info]\nDeletionDate=2023-05-07T09:30:05\n").is_none());
    assert!(parse_trashinfo(b"").is_none());
    assert!(parse_trashinfo(b"[Trash Info]").is_none());
}

#[test]
fn test_trashinfo_tolerates_oddities() {
    // Unknown fields are ignored, the last path wins, a malformed date is
    // dropped, and carriage returns do not leak into values.
    let rec = parse_trashinfo(
        b"[Trash Info]\nColor=blue\nPath=/old\nPath=/new\nDeletionDate=not-a-date\n",
    )
    .expect("a record naming a path is usable");
    assert_eq!(rec.original_path, b"/new".to_vec());
    assert_eq!(rec.deleted_at, None);
    let rec2 = parse_trashinfo(b"[Trash Info]\r\nPath=/crlf\r\n").expect("crlf records read too");
    assert_eq!(rec2.original_path, b"/crlf".to_vec());
}

#[test]
fn test_restore_meta_round_trip() {
    let d = dt(2020, 1, 2, 3, 4, 5);
    let content = format_restore_meta(b"/home/u/doc.pdf", b"/home/u/.Trash/doc.pdf", &d);
    assert_eq!(
        content,
        b"[Trash Info]\nPath=/home/u/doc.pdf\nTrashPath=/home/u/.Trash/doc.pdf\nDeletionDate=2020-01-02T03:04:05\n"
            .to_vec()
    );
    let rec = parse_restore_meta(&content).expect("its own record must read back");
    assert_eq!(rec.original_path, b"/home/u/doc.pdf".to_vec());
    assert_eq!(rec.trash_path, b"/home/u/.Trash/doc.pdf".to_vec());
    assert_eq!(rec.deleted_at, Some(d));
}

#[test]
fn test_parse_restore_meta_requires_both_paths() {
    assert!(parse_restore_meta(b"[Trash Info]\nPath=/only\n").is_none());
    assert!(parse_restore_meta(b"[Trash Info]\nTrashPath=/only\n").is_none());
    // The managed parser accepts the same text, needing only the path.
    assert!(parse_trashinfo(b"[Trash Info]\nPath=/only\n").is_some());
}

#[test]
fn test_uuid_format() {
    assert_eq!(uuid_v4(0, 0, 0, 0), b"00000000-0000-4000-8000-000000000000".to_vec());
    let id = uuid_v4(0x12345678, 0xABCD1234, 0x1122334455, 5);
    assert_eq!(id, b"12345678-abcd-4234-8005-001122334455".to_vec());
}

#[test]
fn test_datetime_from_unix_epoch() {
    // Runs the clock crate's conversion for real: the epoch reads back as
    // the first second of 1970, not as the input handed through.
    assert_eq!(datetime_from_unix(0), Some(dt(1970, 1, 1, 0, 0, 0)));
    assert_eq!(datetime_from_unix(86400 + 3661), Some(dt(1970, 1, 2, 1, 1, 1)));
}

#[test]
fn test_local_now_is_valid() {
    let now = saferm::clock::local_now();
    assert!(now.is_wf());
    let text = format_datetime(&now);
    assert_eq!(text.len(), 19);
}
