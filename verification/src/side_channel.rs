//! Side-channel restore metadata, for platforms whose native trash facility
//! can delete but neither list nor restore.
//!
//! Around each native deletion the caller snapshots the platform trash
//! root's entry names; when exactly one new entry appears, a record is kept
//! under a fresh identifier, naming the original path and the entry's place
//! inside the trash root. An ambiguous snapshot (zero or several new
//! entries) keeps no record: the item is still safely trashed, only not
//! restorable through this library.

use vstd::prelude::*;

use crate::bytes::join_bytes;
use crate::datetime::DateTime;
use crate::digits::{hex_fixed, push_hex_fixed};
use crate::handler::{RestorableItem, RestorableView};
use crate::managed::{info_suffix, InfoFile, InfoFileView};
use crate::naming::base_name_of;
use crate::trashinfo::{parsed_side, side_bytes};

verus! {

/// The entries of `after` that are not in `before`, in order.
pub open spec fn snapshot_diff(after: Seq<Seq<u8>>, before: Seq<Seq<u8>>) -> Seq<Seq<u8>>
    decreases after.len(),
{
    if after.len() == 0 {
        Seq::empty()
    } else {
        let rest = snapshot_diff(after.skip(1), before);
        if before.contains(after[0]) {
            rest
        } else {
            seq![after[0]] + rest
        }
    }
}

/// Which entries of the trash root are new since the snapshot.
pub fn new_entries(before: &Vec<Vec<u8>>, after: &Vec<Vec<u8>>) -> (r: Vec<Vec<u8>>)
    ensures
        r.deep_view() == snapshot_diff(after.deep_view(), before.deep_view()),
{
    let ghost av = after.deep_view();
    let ghost bv = before.deep_view();
    let mut r: Vec<Vec<u8>> = Vec::new();
    let mut i: usize = 0;
    proof {
        assert(av.skip(0) =~= av);
        assert(r.deep_view() =~= Seq::<Seq<u8>>::empty());
    }
    loop
        invariant
            i <= after.len(),
            av == after.deep_view(),
            bv == before.deep_view(),
            r.deep_view() + snapshot_diff(av.skip(i as int), bv) == snapshot_diff(av, bv),
        ensures
            r.deep_view() == snapshot_diff(av, bv),
        decreases after.len() - i,
    {
        if i == after.len() {
            proof {
                assert(av.skip(i as int) =~= Seq::<Seq<u8>>::empty());
                assert(r.deep_view() + Seq::<Seq<u8>>::empty() =~= r.deep_view());
            }
            break;
        }
        proof {
            assert(av.skip(i as int)[0] == av[i as int]);
            assert(av.skip(i as int).skip(1) =~= av.skip(i as int + 1));
            assert(av[i as int] =~= after@[i as int]@);
        }
        let ghost prev = r.deep_view();
        if !crate::naming::contains_name(before, after[i].as_slice()) {
            let kept = crate::bytes::copy_vec(after[i].as_slice());
            r.push(kept);
            proof {
                assert(r.deep_view() =~~= prev.push(av[i as int]));
                assert(prev.push(av[i as int]) + snapshot_diff(av.skip(i as int + 1), bv) =~= prev
                    + (seq![av[i as int]] + snapshot_diff(av.skip(i as int + 1), bv)));
            }
        }
        i += 1;
    }
    r
}

/// The one new entry, if the snapshots differ by exactly one; nothing when
/// the difference is ambiguous.
pub fn single_new_entry(before: &Vec<Vec<u8>>, after: &Vec<Vec<u8>>) -> (r: Option<Vec<u8>>)
    ensures
        match r {
            Some(e) => snapshot_diff(after.deep_view(), before.deep_view()) == seq![e@],
            None => snapshot_diff(after.deep_view(), before.deep_view()).len() != 1,
        },
{
    let mut diff = new_entries(before, after);
    if diff.len() == 1 {
        let e = diff.pop();
        match e {
            Some(e) => {
                proof {
                    assert(snapshot_diff(after.deep_view(), before.deep_view()) =~~= seq![e@]);
                }
                Some(e)
            },
            None => None,
        }
    } else {
        None
    }
}

/// The identifier a side-channel record is filed under: time and process
/// rendered in the canonical 8-4-4-4-12 hexadecimal shape, with the version
/// nibble fixed.
pub open spec fn uuid_bytes(secs: u64, nanos: u32, total_nanos: u64, pid: u32) -> Seq<u8> {
    hex_fixed((secs % 0x1_0000_0000) as nat, 8) + seq![45u8] + hex_fixed(
        ((nanos / 0x1_0000) % 0x1_0000) as nat,
        4,
    ) + seq![45u8, 52u8] + hex_fixed((nanos % 0x1000) as nat, 3) + seq![45u8] + hex_fixed(
        (0x8000 + (pid % 0x4000)) as nat,
        4,
    ) + seq![45u8] + hex_fixed((total_nanos % 0x1_0000_0000_0000) as nat, 12)
}

/// A fresh identifier from the clock and the process id.
pub fn uuid_v4(secs: u64, nanos: u32, total_nanos: u64, pid: u32) -> (r: Vec<u8>)
    ensures
        r@ == uuid_bytes(secs, nanos, total_nanos, pid),
{
    let mut r: Vec<u8> = Vec::new();
    push_hex_fixed(&mut r, secs % 0x1_0000_0000, 8);
    r.push(45);
    push_hex_fixed(&mut r, ((nanos / 0x1_0000) % 0x1_0000) as u64, 4);
    r.push(45);
    r.push(52);
    push_hex_fixed(&mut r, (nanos % 0x1000) as u64, 3);
    r.push(45);
    push_hex_fixed(&mut r, 0x8000 + (pid % 0x4000) as u64, 4);
    r.push(45);
    push_hex_fixed(&mut r, total_nanos % 0x1_0000_0000_0000, 12);
    proof {
        assert(r@ =~= uuid_bytes(secs, nanos, total_nanos, pid));
    }
    r
}

/// The side-channel record for one new trash-root entry: the file name to
/// keep it under (the identifier with the record suffix) and its content,
/// naming the original path, the entry's path inside the trash root, and the
/// deletion time.
pub fn restore_meta_record(
    id: &[u8],
    original_path: &[u8],
    trash_dir: &[u8],
    entry_name: &[u8],
    now: &DateTime,
) -> (r: (Vec<u8>, Vec<u8>))
    requires
        now.wf(),
    ensures
        r.0@ == id@ + info_suffix(),
        r.1@ == side_bytes(original_path@, join_bytes(trash_dir@, entry_name@), *now),
{
    let mut name = crate::bytes::copy_vec(id);
    let mut suffix: Vec<u8> = Vec::new();
    suffix.push(46);
    suffix.push(116);
    suffix.push(114);
    suffix.push(97);
    suffix.push(115);
    suffix.push(104);
    suffix.push(105);
    suffix.push(110);
    suffix.push(102);
    suffix.push(111);
    proof {
        assert(suffix@ =~= info_suffix());
    }
    crate::bytes::push_all(&mut name, suffix.as_slice());
    let trash_path = crate::bytes::path_join(trash_dir, entry_name);
    let content = crate::trashinfo::format_restore_meta(original_path, trash_path.as_slice(), now);
    (name, content)
}

/// What one side-channel record file offers: its identifier (the file name
/// without the suffix), the recorded paths and time — or nothing when the
/// name lacks the suffix or the content does not parse.
pub open spec fn side_record_of(f: InfoFileView) -> Option<
    (Seq<u8>, Seq<u8>, Seq<u8>, Option<DateTime>),
> {
    if f.name.len() > info_suffix().len() && f.name.skip(
        f.name.len() - info_suffix().len(),
    ) == info_suffix() {
        match parsed_side(f.content) {
            Some(ptd) => Some(
                (f.name.take(f.name.len() - info_suffix().len()), ptd.0, ptd.1, ptd.2),
            ),
            None => None,
        }
    } else {
        None
    }
}

/// How a side-channel item is shown: under its identifier, with the file
/// name its original path ends in (or the identifier itself).
pub open spec fn side_to_restorable(id: Seq<u8>, orig: Seq<u8>, d: Option<DateTime>)
    -> RestorableView {
    RestorableView {
        id: id,
        original_path: orig,
        display_name: if base_name_of(orig).len() > 0 {
            base_name_of(orig)
        } else {
            id
        },
        deleted_at: d,
    }
}

/// The restorable items of a side-channel store: each readable record whose
/// trash-root entry is still present, filtered as listings are.
pub open spec fn side_items(
    records: Seq<InfoFileView>,
    present: Seq<bool>,
    pat: Option<Seq<u8>>,
) -> Seq<RestorableView>
    decreases records.len(),
{
    if records.len() == 0 {
        Seq::empty()
    } else {
        let rest = side_items(records.skip(1), present.skip(1), pat);
        match side_record_of(records[0]) {
            Some(r) => if present[0] && (match pat {
                None => true,
                Some(p) => crate::bytes::contains_bytes(r.1, p),
            }) {
                seq![side_to_restorable(r.0, r.1, r.3)] + rest
            } else {
                rest
            },
            None => rest,
        }
    }
}

/// The record files whose trash-root entry is gone: stale, to be pruned.
pub open spec fn stale_records(records: Seq<InfoFileView>, present: Seq<bool>) -> Seq<Seq<u8>>
    decreases records.len(),
{
    if records.len() == 0 {
        Seq::empty()
    } else {
        let rest = stale_records(records.skip(1), present.skip(1));
        match side_record_of(records[0]) {
            Some(r) => if !present[0] {
                seq![records[0].name] + rest
            } else {
                rest
            },
            None => rest,
        }
    }
}

/// Reads a side-channel store: `present[k]` says whether the trash-root
/// path of record `k` (as `side_channel_paths` gave it) still exists. Stale
/// records are handed back for pruning, never surfaced; unreadable ones are
/// skipped silently.
pub fn side_channel_items(
    records: &Vec<InfoFile>,
    present: &Vec<bool>,
    filter: Option<&Vec<u8>>,
) -> (r: (Vec<RestorableItem>, Vec<Vec<u8>>))
    requires
        present.len() == records.len(),
    ensures
        r.0.deep_view() == side_items(
            crate::managed::infos_view(records@),
            present@,
            crate::handler::pat_of(filter),
        ),
        r.1.deep_view() == stale_records(crate::managed::infos_view(records@), present@),
{
    let ghost rv = crate::managed::infos_view(records@);
    let ghost prv = present@;
    let ghost pat = crate::handler::pat_of(filter);
    let mut items: Vec<RestorableItem> = Vec::new();
    let mut stale: Vec<Vec<u8>> = Vec::new();
    let mut sfx: Vec<u8> = Vec::new();
    sfx.push(46);
    sfx.push(116);
    sfx.push(114);
    sfx.push(97);
    sfx.push(115);
    sfx.push(104);
    sfx.push(105);
    sfx.push(110);
    sfx.push(102);
    sfx.push(111);
    proof {
        assert(sfx@ =~= info_suffix());
    }
    let mut i: usize = 0;
    proof {
        assert(rv.skip(0) =~= rv);
        assert(prv.skip(0) =~= prv);
        assert(items.deep_view() =~= Seq::<RestorableView>::empty());
        assert(stale.deep_view() =~= Seq::<Seq<u8>>::empty());
    }
    loop
        invariant
            i <= records.len(),
            present.len() == records.len(),
            sfx@ == info_suffix(),
            rv == crate::managed::infos_view(records@),
            prv == present@,
            pat == crate::handler::pat_of(filter),
            items.deep_view() + side_items(rv.skip(i as int), prv.skip(i as int), pat)
                == side_items(rv, prv, pat),
            stale.deep_view() + stale_records(rv.skip(i as int), prv.skip(i as int))
                == stale_records(rv, prv),
        ensures
            items.deep_view() == side_items(rv, prv, pat),
            stale.deep_view() == stale_records(rv, prv),
        decreases records.len() - i,
    {
        if i == records.len() {
            proof {
                assert(rv.skip(i as int) =~= Seq::<InfoFileView>::empty());
                assert(prv.skip(i as int) =~= Seq::<bool>::empty());
                assert(items.deep_view() + Seq::<RestorableView>::empty() =~= items.deep_view());
                assert(stale.deep_view() + Seq::<Seq<u8>>::empty() =~= stale.deep_view());
            }
            break;
        }
        let ghost f = rv[i as int];
        proof {
            assert(rv.skip(i as int)[0] == f);
            assert(rv.skip(i as int).skip(1) =~= rv.skip(i as int + 1));
            assert(prv.skip(i as int)[0] == prv[i as int]);
            assert(prv.skip(i as int).skip(1) =~= prv.skip(i as int + 1));
        }
        let name_len = records[i].name.len();
        let ghost items_before = items.deep_view();
        let ghost stale_before = stale.deep_view();
        if name_len > sfx.len() && crate::bytes::matches_at_exec(
            records[i].name.as_slice(),
            sfx.as_slice(),
            name_len - sfx.len(),
        ) {
            proof {
                assert(f.name.skip(f.name.len() - info_suffix().len()) =~= f.name.subrange(
                    name_len - sfx@.len(),
                    name_len as int,
                ));
            }
            match crate::trashinfo::parse_restore_meta(records[i].content.as_slice()) {
                Some(rec) => {
                    let id = crate::bytes::sub_vec(records[i].name.as_slice(), 0, name_len
                        - sfx.len());
                    proof {
                        assert(id@ =~= f.name.take(f.name.len() - info_suffix().len()));
                    }
                    if present[i] {
                        let keep = match filter {
                            Some(p) => crate::bytes::contains_sub(
                                rec.original_path.as_slice(),
                                p.as_slice(),
                            ),
                            None => true,
                        };
                        if keep {
                            let bn = crate::naming::base_name(rec.original_path.as_slice());
                            let display_name = if bn.len() > 0 {
                                bn
                            } else {
                                crate::bytes::copy_vec(id.as_slice())
                            };
                            let item = RestorableItem {
                                id,
                                original_path: rec.original_path,
                                display_name,
                                deleted_at: rec.deleted_at,
                            };
                            let ghost expected = side_record_of(f);
                            proof {
                                assert(item@ == side_to_restorable(
                                    expected.unwrap().0,
                                    expected.unwrap().1,
                                    expected.unwrap().3,
                                ));
                            }
                            items.push(item);
                            proof {
                                let it = side_to_restorable(
                                    expected.unwrap().0,
                                    expected.unwrap().1,
                                    expected.unwrap().3,
                                );
                                assert(items.deep_view() =~= items_before.push(it));
                                assert(items_before.push(it) + side_items(
                                    rv.skip(i as int + 1),
                                    prv.skip(i as int + 1),
                                    pat,
                                ) =~= items_before + (seq![it] + side_items(
                                    rv.skip(i as int + 1),
                                    prv.skip(i as int + 1),
                                    pat,
                                )));
                            }
                        }
                    } else {
                        let name_copy = crate::bytes::copy_vec(records[i].name.as_slice());
                        stale.push(name_copy);
                        proof {
                            assert(stale.deep_view() =~~= stale_before.push(f.name));
                            assert(stale_before.push(f.name) + stale_records(
                                rv.skip(i as int + 1),
                                prv.skip(i as int + 1),
                            ) =~= stale_before + (seq![f.name] + stale_records(
                                rv.skip(i as int + 1),
                                prv.skip(i as int + 1),
                            )));
                        }
                    }
                },
                None => {
                    proof {
                        assert(side_record_of(f) is None);
                    }
                },
            }
        } else {
            proof {
                if f.name.len() > info_suffix().len() {
                    assert(f.name.skip(f.name.len() - info_suffix().len()) =~= f.name.subrange(
                        name_len - sfx@.len(),
                        name_len as int,
                    ));
                }
                assert(side_record_of(f) is None);
            }
        }
        i += 1;
    }
    (items, stale)
}

} // verus!
