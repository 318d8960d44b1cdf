//! The platform trash backend: deletion, listing, purging and restoring
//! through the operating system's trash facility, by way of the `trash`
//! crate.
//!
//! The native calls sit behind small trusted wrappers; everything around
//! them — filtering a listing, finding an item by id, and the
//! eviction/rollback transaction that restores to a location other than the
//! original — is verified.

use vstd::prelude::*;

use crate::clock::dt_of_unix;
use crate::handler::{RestorableItem, RestorableView};
use crate::TrashError;

verus! {

#[verifier::external_type_specification]
#[verifier::external_body]
pub struct ExTrashItem(trash::TrashItem);

#[verifier::external_type_specification]
#[verifier::external_body]
pub struct ExTrashError(trash::Error);

/// Why a native restore failed: the destination was occupied, or anything
/// else.
#[derive(Clone, Copy, Debug, PartialEq, Eq, Structural)]
pub enum RestoreFailure {
    Collision,
    Other,
}

/// One item of the platform trash: the native handle (needed to restore or
/// purge it) and the plain facts read from it.
pub struct OsItem {
    /// The native handle.
    pub handle: trash::TrashItem,
    /// The backend-local stable key.
    pub id: Vec<u8>,
    /// The item's file name.
    pub name: Vec<u8>,
    /// The absolute path it had before deletion.
    pub original_path: Vec<u8>,
    /// Unix seconds of the deletion.
    pub time_deleted: i64,
}

/// The ghost shape of a platform trash item.
pub struct OsItemView {
    pub id: Seq<u8>,
    pub name: Seq<u8>,
    pub original_path: Seq<u8>,
    pub time_deleted: i64,
}

impl View for OsItem {
    type V = OsItemView;

    open spec fn view(&self) -> OsItemView {
        OsItemView {
            id: self.id@,
            name: self.name@,
            original_path: self.original_path@,
            time_deleted: self.time_deleted,
        }
    }
}

pub open spec fn os_items_view(items: Seq<OsItem>) -> Seq<OsItemView> {
    Seq::new(items.len(), |i: int| items[i]@)
}

/// The path ends in a real file name: its final component is nonempty and
/// neither `.` nor `..`. Only such paths may go to the platform delete.
pub open spec fn real_file_name(p: Seq<u8>) -> bool {
    &&& crate::naming::base_name_of(p).len() > 0
    &&& crate::naming::base_name_of(p) != seq![46u8]
    &&& crate::naming::base_name_of(p) != seq![46u8, 46u8]
}

/// Checks that the path ends in a real file name.
fn has_real_file_name(path: &[u8]) -> (r: bool)
    ensures
        r == real_file_name(path@),
{
    let name = crate::naming::base_name(path);
    if name.len() == 0 {
        return false;
    }
    if name.len() == 1 && name[0] == 46 {
        proof {
            assert(name@ =~= seq![46u8]);
        }
        return false;
    }
    if name.len() == 2 && name[0] == 46 && name[1] == 46 {
        proof {
            assert(name@ =~= seq![46u8, 46u8]);
        }
        return false;
    }
    proof {
        if name@ == seq![46u8] {
            assert(name@.len() == 1 && name@[0] == 46u8);
        }
        if name@ == seq![46u8, 46u8] {
            assert(name@.len() == 2 && name@[0] == 46u8 && name@[1] == 46u8);
        }
    }
    true
}

/// Relies on trash::delete: moves the file at the given path into the
/// platform trash. What the facility does depends on the machine, so only
/// the outcome shape is stated. A path without a real final file name is
/// excluded: on one ending in `..` the facility collapses the path onto its
/// canonical parent — handing that parent to the trash, or unwrapping a
/// missing file name (a panic) when the parent is the root — so such paths
/// never reach it.
#[verifier::external_body]
fn os_delete_raw(path: &[u8]) -> (r: Result<(), trash::Error>)
    requires
        real_file_name(path@),
{
    trash::delete(String::from_utf8_lossy(path).into_owned())
}

/// Relies on trash::os_limited::list: every item currently in the platform
/// trash, in no particular order, with its id, name, original path and
/// deletion time copied out beside the native handle. Caveat: on a malformed
/// record file that another tool left in a trash directory, the facility's
/// parser panics; that depends on disk state, which no `requires` on
/// arguments can exclude.
#[verifier::external_body]
fn os_list_raw() -> (r: Result<Vec<OsItem>, trash::Error>) {
    match trash::os_limited::list() {
        Ok(items) => Ok(
            items.into_iter().map(
                |it| OsItem {
                    id: it.id.to_string_lossy().into_owned().into_bytes(),
                    name: it.name.to_string_lossy().into_owned().into_bytes(),
                    original_path: it.original_path().to_string_lossy().into_owned().into_bytes(),
                    time_deleted: it.time_deleted,
                    handle: it,
                },
            ).collect(),
        ),
        Err(e) => Err(e),
    }
}

/// Relies on trash::os_limited::purge_all: permanently deletes the given
/// items from the platform trash.
#[verifier::external_body]
fn os_purge_raw(items: Vec<OsItem>) -> (r: Result<(), trash::Error>) {
    trash::os_limited::purge_all(items.into_iter().map(|it| it.handle))
}

/// Relies on trash::os_limited::restore_all: puts the item back at its
/// original path; an occupied original path is a restore collision, kept
/// apart from every other failure.
#[verifier::external_body]
fn os_restore_raw(item: OsItem) -> (r: Result<(), RestoreFailure>) {
    match trash::os_limited::restore_all(std::iter::once(item.handle)) {
        Ok(()) => Ok(()),
        Err(trash::Error::RestoreCollision { .. }) => Err(RestoreFailure::Collision),
        Err(_) => Err(RestoreFailure::Other),
    }
}

/// The platform listing with its native handles, as the restore flow needs
/// it. A facility failure is `BackendFailed`.
pub fn raw_listing() -> (r: Result<Vec<OsItem>, TrashError>)
    ensures
        r matches Err(e) ==> e == TrashError::BackendFailed,
{
    match os_list_raw() {
        Ok(v) => Ok(v),
        Err(_) => Err(TrashError::BackendFailed),
    }
}

/// Does the item fall under the filter? As for the holding area: the pattern
/// must occur in the item's name or original path.
pub open spec fn os_item_matches(it: OsItemView, pat: Option<Seq<u8>>) -> bool {
    match pat {
        None => true,
        Some(p) => crate::bytes::contains_bytes(it.name, p) || crate::bytes::contains_bytes(
            it.original_path,
            p,
        ),
    }
}

/// How a platform item is presented: its id stays the backend's, its name is
/// shown, and its deletion time is the UTC reading of the native timestamp.
pub open spec fn os_to_restorable(it: OsItemView) -> RestorableView {
    RestorableView {
        id: it.id,
        original_path: it.original_path,
        display_name: it.name,
        deleted_at: dt_of_unix(it.time_deleted),
    }
}

/// The platform items that fall under the filter, in listing order.
pub open spec fn os_filtered(items: Seq<OsItemView>, pat: Option<Seq<u8>>) -> Seq<RestorableView>
    decreases items.len(),
{
    if items.len() == 0 {
        Seq::empty()
    } else {
        let rest = os_filtered(items.skip(1), pat);
        if os_item_matches(items[0], pat) {
            seq![os_to_restorable(items[0])] + rest
        } else {
            rest
        }
    }
}

/// Filter correctness for platform listings: everything kept falls under
/// the filter, and every item that falls under it is kept.
pub proof fn lemma_os_filter_correct(items: Seq<OsItemView>, pat: Option<Seq<u8>>)
    ensures
        forall|k: int|
            0 <= k < os_filtered(items, pat).len() ==> exists|j: int|
                0 <= j < items.len() && os_item_matches(items[j], pat) && #[trigger] os_filtered(
                    items,
                    pat,
                )[k] == os_to_restorable(items[j]),
        forall|j: int|
            0 <= j < items.len() && os_item_matches(#[trigger] items[j], pat) ==> os_filtered(
                items,
                pat,
            ).contains(os_to_restorable(items[j])),
    decreases items.len(),
{
    if items.len() > 0 {
        let tail = items.skip(1);
        assert(forall|k: int| 0 <= k < tail.len() ==> tail[k] == items[k + 1]);
        lemma_os_filter_correct(tail, pat);
        let rest = os_filtered(tail, pat);
        let r = os_filtered(items, pat);
        assert forall|k: int| 0 <= k < r.len() implies exists|j: int|
            0 <= j < items.len() && os_item_matches(items[j], pat) && #[trigger] r[k]
                == os_to_restorable(items[j]) by {
            if os_item_matches(items[0], pat) {
                if k == 0 {
                    assert(r[0] == os_to_restorable(items[0]));
                } else {
                    assert(r[k] == rest[k - 1]);
                    let j = choose|j: int|
                        0 <= j < tail.len() && os_item_matches(tail[j], pat) && rest[k - 1]
                            == os_to_restorable(tail[j]);
                    assert(items[j + 1] == tail[j]);
                }
            } else {
                assert(r[k] == rest[k]);
                let j = choose|j: int|
                    0 <= j < tail.len() && os_item_matches(tail[j], pat) && rest[k]
                        == os_to_restorable(tail[j]);
                assert(items[j + 1] == tail[j]);
            }
        }
        assert forall|j: int|
            0 <= j < items.len() && os_item_matches(#[trigger] items[j], pat) implies r.contains(
            os_to_restorable(items[j]),
        ) by {
            if j == 0 {
                assert(r[0] == os_to_restorable(items[0]));
            } else {
                assert(tail[j - 1] == items[j]);
                assert(rest.contains(os_to_restorable(tail[j - 1])));
                let k = choose|k: int|
                    0 <= k < rest.len() && rest[k] == os_to_restorable(tail[j - 1]);
                if os_item_matches(items[0], pat) {
                    assert(r[k + 1] == rest[k]);
                } else {
                    assert(r[k] == rest[k]);
                }
            }
        }
    }
}

/// Filters a platform listing: exactly the items whose name or original path
/// contains the pattern, in listing order.
pub fn filter_os_items(items: &Vec<OsItem>, filter: Option<&Vec<u8>>) -> (r: Vec<RestorableItem>)
    ensures
        r.deep_view() == os_filtered(
            os_items_view(items@),
            match filter {
                Some(p) => Some(p@),
                None => None,
            },
        ),
{
    let ghost pat: Option<Seq<u8>> = match filter {
        Some(p) => Some(p@),
        None => None,
    };
    let ghost all = os_items_view(items@);
    let mut r: Vec<RestorableItem> = Vec::new();
    let mut i: usize = 0;
    proof {
        assert(all.skip(0) =~= all);
        assert(r.deep_view() =~= Seq::<RestorableView>::empty());
    }
    loop
        invariant
            i <= items.len(),
            all == os_items_view(items@),
            pat == (match filter {
                Some(p) => Some(p@),
                None => None,
            }),
            r.deep_view() + os_filtered(all.skip(i as int), pat) == os_filtered(all, pat),
        ensures
            r.deep_view() == os_filtered(all, pat),
        decreases items.len() - i,
    {
        if i == items.len() {
            proof {
                assert(all.skip(i as int) =~= Seq::<OsItemView>::empty());
                assert(r.deep_view() + Seq::<RestorableView>::empty() =~= r.deep_view());
            }
            break;
        }
        let ghost it = all[i as int];
        proof {
            assert(all.skip(i as int)[0] == it);
            assert(all.skip(i as int).skip(1) =~= all.skip(i as int + 1));
        }
        let keep = match filter {
            Some(p) => {
                crate::bytes::contains_sub(items[i].name.as_slice(), p.as_slice())
                    || crate::bytes::contains_sub(items[i].original_path.as_slice(), p.as_slice())
            },
            None => true,
        };
        let ghost before = r.deep_view();
        if keep {
            let item = RestorableItem {
                id: crate::bytes::copy_vec(items[i].id.as_slice()),
                original_path: crate::bytes::copy_vec(items[i].original_path.as_slice()),
                display_name: crate::bytes::copy_vec(items[i].name.as_slice()),
                deleted_at: crate::clock::datetime_from_unix(items[i].time_deleted),
            };
            proof {
                assert(item@ == os_to_restorable(it));
            }
            r.push(item);
            proof {
                assert(r.deep_view() =~= before.push(os_to_restorable(it)));
                assert(before.push(os_to_restorable(it)) + os_filtered(all.skip(i as int + 1), pat)
                    =~= before + (seq![os_to_restorable(it)] + os_filtered(
                    all.skip(i as int + 1),
                    pat,
                )));
            }
        }
        i += 1;
    }
    r
}

/// Takes the item with the given id out of a listing, if one is there.
pub fn find_item(items: &mut Vec<OsItem>, id: &[u8]) -> (r: Option<OsItem>)
    ensures
        match r {
            Some(it) => it@.id == id@ && os_items_view(old(items)@).contains(it@),
            None => forall|k: int|
                0 <= k < old(items)@.len() ==> (#[trigger] old(items)@[k]@).id != id@,
        },
{
    let mut i: usize = 0;
    while i < items.len()
        invariant
            i <= items.len(),
            items@ == old(items)@,
            forall|k: int| 0 <= k < i ==> (#[trigger] items@[k]@).id != id@,
        decreases items.len() - i,
    {
        if crate::bytes::bytes_eq(items[i].id.as_slice(), id) {
            let it = items.remove(i);
            proof {
                assert(os_items_view(old(items)@)[i as int] == it@);
            }
            return Some(it);
        }
        i += 1;
    }
    None
}

/// `.saferm-evict-`, the prefix of a temporary eviction name.
pub open spec fn evict_prefix() -> Seq<u8> {
    seq![
        46u8,
        115u8,
        97u8,
        102u8,
        101u8,
        114u8,
        109u8,
        45u8,
        101u8,
        118u8,
        105u8,
        99u8,
        116u8,
        45u8,
    ]
}

/// The `c`-th candidate name for evicting the occupant named `name`:
/// `.saferm-evict-<pid>-<name>`, with a counter inserted from the second
/// try on.
pub open spec fn evict_name(pid: u64, name: Seq<u8>, c: nat) -> Seq<u8> {
    evict_prefix() + crate::digits::dec_rep(pid as nat) + seq![45u8] + (if c == 1 {
        Seq::<u8>::empty()
    } else {
        crate::digits::dec_rep(c) + seq![45u8]
    }) + name
}

proof fn lemma_evict_name_distinct(pid: u64, name: Seq<u8>, i: nat, j: nat)
    requires
        i != j,
    ensures
        evict_name(pid, name, i) != evict_name(pid, name, j),
{
    let ci = evict_name(pid, name, i);
    let cj = evict_name(pid, name, j);
    let head = evict_prefix() + crate::digits::dec_rep(pid as nat) + seq![45u8];
    if ci == cj {
        if i != 1 {
            crate::digits::lemma_dec_rep_len(i);
            assert(ci == head + (crate::digits::dec_rep(i) + seq![45u8]) + name);
        } else {
            assert(ci == head + Seq::<u8>::empty() + name);
        }
        if j != 1 {
            crate::digits::lemma_dec_rep_len(j);
            assert(cj == head + (crate::digits::dec_rep(j) + seq![45u8]) + name);
        } else {
            assert(cj == head + Seq::<u8>::empty() + name);
        }
        if i == 1 || j == 1 {
            assert(ci.len() != cj.len());
        } else {
            let base = evict_prefix().len() + crate::digits::dec_rep(pid as nat).len() + 1;
            assert(crate::digits::dec_rep(i).len() == crate::digits::dec_rep(j).len());
            assert(ci.subrange(base as int, base as int + crate::digits::dec_rep(i).len() as int)
                =~= crate::digits::dec_rep(i));
            assert(cj.subrange(base as int, base as int + crate::digits::dec_rep(j).len() as int)
                =~= crate::digits::dec_rep(j));
            crate::digits::lemma_dec_rep_injective(i, j);
        }
    }
}

/// A fresh hidden name, beside the occupant, to evict it under: the first
/// candidate not already taken in its directory.
pub fn evict_temp_name(pid: u64, name: &[u8], sibling_names: &Vec<Vec<u8>>) -> (r: Vec<u8>)
    requires
        sibling_names.len() < usize::MAX,
    ensures
        exists|c: nat|
            1 <= c && r@ == evict_name(pid, name@, c) && !sibling_names.deep_view().contains(
                r@,
            ),
{
    let mut i: usize = 1;
    loop
        invariant
            sibling_names.len() < usize::MAX,
            1 <= i <= sibling_names.len() + 1,
            forall|c: nat|
                1 <= c < i ==> sibling_names.deep_view().contains(
                    #[trigger] evict_name(pid, name@, c),
                ),
        decreases sibling_names.len() + 1 - i,
    {
        let mut cand: Vec<u8> = Vec::new();
        cand.push(46);
        cand.push(115);
        cand.push(97);
        cand.push(102);
        cand.push(101);
        cand.push(114);
        cand.push(109);
        cand.push(45);
        cand.push(101);
        cand.push(118);
        cand.push(105);
        cand.push(99);
        cand.push(116);
        cand.push(45);
        proof {
            assert(cand@ =~= evict_prefix());
        }
        crate::digits::push_dec(&mut cand, pid);
        cand.push(45);
        if i != 1 {
            crate::digits::push_dec(&mut cand, i as u64);
            cand.push(45);
        }
        crate::bytes::push_all(&mut cand, name);
        proof {
            assert(cand@ =~= evict_name(pid, name@, i as nat));
        }
        if !crate::naming::contains_name(sibling_names, cand.as_slice()) {
            return cand;
        }
        proof {
            let fcl = |c: nat| evict_name(pid, name@, c);
            assert forall|p: nat, q: nat| p != q implies #[trigger] fcl(p) != #[trigger] fcl(
                q,
            ) by {
                lemma_evict_name_distinct(pid, name@, p, q);
            }
            assert forall|c: nat| 1 <= c <= i as nat implies sibling_names.deep_view().contains(
                #[trigger] fcl(c),
            ) by {
                assert(sibling_names.deep_view().contains(evict_name(pid, name@, c)));
            }
            crate::naming::lemma_probe_bound_injective(
                fcl,
                sibling_names.deep_view(),
                i as nat,
            );
            assert(sibling_names.deep_view().len() == sibling_names.len());
        }
        i += 1;
    }
}

/// Where the occupant of the original path sits during a restore
/// transaction.
#[derive(Clone, Copy, Debug, PartialEq, Eq, Structural)]
pub enum OccupantPlace {
    /// At the original path, where it belongs.
    AtOriginal,
    /// Renamed aside under the eviction name.
    AtTemp,
    /// There never was one (or the conflict layer already dealt with it).
    NoneThere,
}

/// Where the item being restored sits during the transaction.
#[derive(Clone, Copy, Debug, PartialEq, Eq, Structural)]
pub enum PayloadPlace {
    /// Still in the platform trash.
    InTrash,
    /// Landed at its original path by the native restore.
    AtOriginal,
    /// Moved on to the requested destination.
    AtDest,
    /// Lost to the returning occupant: a relocation failed after the native
    /// restore, and rolling the occupant back replaced the payload at the
    /// original path.
    Displaced,
}

/// What the caller must do next.
pub enum TxAction {
    /// Rename the occupant aside, atomically.
    RenameAside { from: Vec<u8>, to: Vec<u8> },
    /// Invoke the native restore of the item (it lands at the original
    /// path).
    NativeRestore,
    /// Move the restored payload from the original path to the destination.
    MoveToDest { from: Vec<u8>, to: Vec<u8> },
    /// Rename the evicted occupant back to the original path.
    PutBack { from: Vec<u8>, to: Vec<u8> },
}

/// What the caller reports back.
#[derive(Clone, Copy, Debug, PartialEq, Eq, Structural)]
pub enum TxEvent {
    RenameOk,
    RenameFailed,
    NativeOk,
    NativeCollision,
    NativeFailed,
}

/// The transaction's phase.
#[derive(Clone, Copy, Debug, PartialEq, Eq, Structural)]
pub enum TxPhase {
    /// The occupant must move aside first.
    Evict,
    /// The native restore is due.
    Native,
    /// The payload must move on to the destination.
    Relocate,
    /// The operation succeeded; the occupant must come back.
    PutBack,
    /// The operation failed after the eviction; the occupant must come back
    /// before the error propagates.
    Rollback,
    /// Finished, one way or the other.
    Done,
}

/// Restoring to a destination other than the original path, when the native
/// facility only restores to the original path: evict whatever occupies the
/// original path, restore natively, move the payload on, and put the
/// occupant back — on the failure paths too. Drive it by performing
/// `next_action` and reporting each outcome through `step`; the invariant
/// holds throughout, and when it is done the occupant is back at the
/// original path unless a flag says which rename the caller must warn
/// about.
pub struct RestoreTx {
    /// The item's recorded original path.
    pub original_path: Vec<u8>,
    /// Where the item must end up.
    pub destination: Vec<u8>,
    /// The eviction name, present exactly when the original path was
    /// occupied and differs from the destination.
    pub temp_path: Option<Vec<u8>>,
    /// Whether the payload must move on after the native restore.
    pub relocate: bool,
    pub phase: TxPhase,
    /// The overall result, present exactly when done.
    pub outcome: Option<Result<(), TrashError>>,
    /// Rolling the occupant back failed: it sits under the eviction name and
    /// the caller must warn.
    pub rollback_failed: bool,
    /// The operation succeeded but the occupant could not come back: it sits
    /// under the eviction name and the caller must warn.
    pub occupant_stranded: bool,
    /// The error to propagate once the rollback rename has been attempted.
    pub pending_error: Option<TrashError>,
    /// Where the occupant is.
    pub occupant: Ghost<OccupantPlace>,
    /// Where the payload is.
    pub payload: Ghost<PayloadPlace>,
}

impl RestoreTx {
    /// The occupant is where a failed or flagged run may leave it; otherwise
    /// it is untouched or back home.
    pub open spec fn occupant_safe(self) -> bool {
        self.occupant@ == OccupantPlace::AtOriginal || self.occupant@ == OccupantPlace::NoneThere
    }

    pub open spec fn mid_occupant_ok(self) -> bool {
        match self.temp_path {
            Some(_) => self.occupant@ == OccupantPlace::AtTemp,
            None => self.occupant_safe(),
        }
    }

    /// What holds when the transaction is done. An error without
    /// `rollback_failed`, and a success without `occupant_stranded`, leave
    /// the occupant at the original path (or there never was one); success
    /// leaves the payload at the destination.
    pub open spec fn done_ok(self) -> bool {
        match self.outcome {
            Some(res) => match res {
                Ok(u) => {
                    &&& self.payload@ == (if self.relocate {
                        PayloadPlace::AtDest
                    } else {
                        PayloadPlace::AtOriginal
                    })
                    &&& !self.rollback_failed
                    &&& if self.occupant_stranded {
                        self.occupant@ == OccupantPlace::AtTemp && self.temp_path is Some
                    } else {
                        self.occupant_safe()
                    }
                },
                Err(e) => {
                    &&& !self.occupant_stranded
                    &&& if self.rollback_failed {
                        self.occupant@ == OccupantPlace::AtTemp && self.temp_path is Some
                    } else {
                        self.occupant_safe()
                    }
                },
            },
            None => false,
        }
    }

    /// The transaction invariant: every phase pins down where the occupant
    /// and the payload are.
    pub open spec fn inv(self) -> bool {
        &&& (self.phase is Done <==> self.outcome is Some)
        &&& (self.phase is Rollback <==> self.pending_error is Some)
        &&& match self.phase {
            TxPhase::Evict => {
                &&& self.temp_path is Some
                &&& self.relocate
                &&& self.occupant@ == OccupantPlace::AtOriginal
                &&& self.payload@ == PayloadPlace::InTrash
                &&& !self.rollback_failed && !self.occupant_stranded
            },
            TxPhase::Native => {
                &&& self.payload@ == PayloadPlace::InTrash
                &&& self.mid_occupant_ok()
                &&& !self.rollback_failed && !self.occupant_stranded
                &&& (self.temp_path is Some ==> self.relocate)
            },
            TxPhase::Relocate => {
                &&& self.relocate
                &&& self.payload@ == PayloadPlace::AtOriginal
                &&& self.mid_occupant_ok()
                &&& !self.rollback_failed && !self.occupant_stranded
            },
            TxPhase::PutBack => {
                &&& self.temp_path is Some
                &&& self.relocate
                &&& self.occupant@ == OccupantPlace::AtTemp
                &&& self.payload@ == PayloadPlace::AtDest
                &&& !self.rollback_failed && !self.occupant_stranded
            },
            TxPhase::Rollback => {
                &&& self.temp_path is Some
                &&& self.relocate
                &&& self.occupant@ == OccupantPlace::AtTemp
                &&& (self.payload@ == PayloadPlace::InTrash || self.payload@
                    == PayloadPlace::AtOriginal)
                &&& !self.rollback_failed && !self.occupant_stranded
            },
            TxPhase::Done => self.done_ok(),
        }
    }

    /// The law this machine exists for: however the transaction ends, if no
    /// warning flag is raised, the original occupant is back at (or never
    /// left) the original path — it is never left missing.
    pub proof fn lemma_occupant_never_lost(self)
        requires
            self.inv(),
            self.phase is Done,
            !self.rollback_failed,
            !self.occupant_stranded,
        ensures
            self.occupant_safe(),
    {
    }

    /// Opens a transaction. The eviction name is given exactly when the
    /// original path is occupied by something else and the destination
    /// differs from it.
    pub fn new(
        original_path: Vec<u8>,
        destination: Vec<u8>,
        original_occupied: bool,
        temp_path: Option<Vec<u8>>,
    ) -> (tx: Self)
        requires
            temp_path is Some <==> (original_occupied && original_path@ != destination@),
        ensures
            tx.inv(),
            !(tx.phase is Done),
            tx.original_path@ == original_path@,
            tx.destination@ == destination@,
            tx.payload@ == PayloadPlace::InTrash,
            tx.relocate == (original_path@ != destination@),
    {
        let relocate = !crate::bytes::bytes_eq(original_path.as_slice(), destination.as_slice());
        let evicting = temp_path.is_some();
        RestoreTx {
            original_path,
            destination,
            temp_path,
            relocate,
            phase: if evicting {
                TxPhase::Evict
            } else {
                TxPhase::Native
            },
            outcome: None,
            rollback_failed: false,
            occupant_stranded: false,
            pending_error: None,
            occupant: Ghost(
                if original_occupied {
                    OccupantPlace::AtOriginal
                } else {
                    OccupantPlace::NoneThere
                },
            ),
            payload: Ghost(PayloadPlace::InTrash),
        }
    }

    /// Is a native-restore report expected (rather than a rename report)?
    pub open spec fn expects_native(self) -> bool {
        self.phase is Native
    }

    /// What to do next; nothing once done.
    pub fn next_action(&self) -> (r: Option<TxAction>)
        requires
            self.inv(),
        ensures
            r is Some <==> !(self.phase is Done),
            match r {
                Some(a) => match a {
                    TxAction::RenameAside { from, to } => self.phase is Evict && from@
                        == self.original_path@ && Some(to@) == opt_path_view(self.temp_path),
                    TxAction::NativeRestore => self.phase is Native,
                    TxAction::MoveToDest { from, to } => self.phase is Relocate && from@
                        == self.original_path@ && to@ == self.destination@,
                    TxAction::PutBack { from, to } => (self.phase is PutBack || self.phase
                        is Rollback) && Some(from@) == opt_path_view(self.temp_path) && to@
                        == self.original_path@,
                },
                None => true,
            },
    {
        match self.phase {
            TxPhase::Evict => {
                let to = match &self.temp_path {
                    Some(t) => crate::bytes::copy_vec(t.as_slice()),
                    None => {
                        proof {
                            assert(false);
                        }
                        Vec::new()
                    },
                };
                Some(
                    TxAction::RenameAside {
                        from: crate::bytes::copy_vec(self.original_path.as_slice()),
                        to,
                    },
                )
            },
            TxPhase::Native => Some(TxAction::NativeRestore),
            TxPhase::Relocate => Some(
                TxAction::MoveToDest {
                    from: crate::bytes::copy_vec(self.original_path.as_slice()),
                    to: crate::bytes::copy_vec(self.destination.as_slice()),
                },
            ),
            TxPhase::PutBack => {
                let from = match &self.temp_path {
                    Some(t) => crate::bytes::copy_vec(t.as_slice()),
                    None => {
                        proof {
                            assert(false);
                        }
                        Vec::new()
                    },
                };
                Some(
                    TxAction::PutBack {
                        from,
                        to: crate::bytes::copy_vec(self.original_path.as_slice()),
                    },
                )
            },
            TxPhase::Rollback => {
                let from = match &self.temp_path {
                    Some(t) => crate::bytes::copy_vec(t.as_slice()),
                    None => {
                        proof {
                            assert(false);
                        }
                        Vec::new()
                    },
                };
                Some(
                    TxAction::PutBack {
                        from,
                        to: crate::bytes::copy_vec(self.original_path.as_slice()),
                    },
                )
            },
            TxPhase::Done => None,
        }
    }

    /// Reports how the pending action went, and moves the transaction on.
    /// The invariant is kept at every step, so when `Done` is reached,
    /// `done_ok` holds: errors roll the occupant back, success leaves the
    /// payload at the destination, and the two warning flags name exactly
    /// the cases where the occupant sits under the eviction name.
    pub fn step(&mut self, ev: TxEvent)
        requires
            old(self).inv(),
            !(old(self).phase is Done),
            (ev is NativeOk || ev is NativeCollision || ev is NativeFailed)
                <==> old(self).expects_native(),
        ensures
            final(self).inv(),
            final(self).original_path@ == old(self).original_path@,
            final(self).destination@ == old(self).destination@,
            final(self).temp_path == old(self).temp_path,
            final(self).relocate == old(self).relocate,
            // The transition itself, phase by phase: every step advances, and
            // each reported failure fixes which error comes out — a native
            // collision surfaces as the distinct restore conflict, never as a
            // generic failure, with any rollback run first.
            old(self).phase is Evict && ev is RenameOk ==> final(self).phase is Native,
            old(self).phase is Evict && ev is RenameFailed ==> (final(self).phase is Done
                && final(self).outcome == Some(Err::<(), TrashError>(TrashError::MoveFailed))),
            old(self).phase is Native && ev is NativeOk ==> (if old(self).relocate {
                final(self).phase is Relocate
            } else {
                final(self).phase is Done && final(self).outcome == Some(Ok::<(), TrashError>(()))
            }),
            old(self).phase is Native && ev is NativeCollision ==> (if old(self).temp_path
                is Some {
                final(self).phase is Rollback && final(self).pending_error == Some(
                    TrashError::RestoreConflict,
                )
            } else {
                final(self).phase is Done && final(self).outcome == Some(
                    Err::<(), TrashError>(TrashError::RestoreConflict),
                )
            }),
            old(self).phase is Native && ev is NativeFailed ==> (if old(self).temp_path is Some {
                final(self).phase is Rollback && final(self).pending_error == Some(
                    TrashError::BackendFailed,
                )
            } else {
                final(self).phase is Done && final(self).outcome == Some(
                    Err::<(), TrashError>(TrashError::BackendFailed),
                )
            }),
            old(self).phase is Relocate && ev is RenameOk ==> (if old(self).temp_path is Some {
                final(self).phase is PutBack
            } else {
                final(self).phase is Done && final(self).outcome == Some(Ok::<(), TrashError>(()))
            }),
            old(self).phase is Relocate && ev is RenameFailed ==> (if old(self).temp_path
                is Some {
                final(self).phase is Rollback && final(self).pending_error == Some(
                    TrashError::MoveFailed,
                )
            } else {
                final(self).phase is Done && final(self).outcome == Some(
                    Err::<(), TrashError>(TrashError::MoveFailed),
                )
            }),
            old(self).phase is PutBack ==> (final(self).phase is Done && final(self).outcome
                == Some(Ok::<(), TrashError>(())) && (final(self).occupant_stranded <==> ev
                is RenameFailed)),
            old(self).phase is Rollback ==> (final(self).phase is Done && (
            old(self).pending_error matches Some(e) && final(self).outcome == Some(
                Err::<(), TrashError>(e),
            )) && (final(self).rollback_failed <==> ev is RenameFailed)),
    {
        match self.phase {
            TxPhase::Evict => {
                match ev {
                    TxEvent::RenameOk => {
                        self.occupant = Ghost(OccupantPlace::AtTemp);
                        self.phase = TxPhase::Native;
                    },
                    TxEvent::RenameFailed => {
                        self.outcome = Some(Err(TrashError::MoveFailed));
                        self.phase = TxPhase::Done;
                    },
                    _ => {
                        proof {
                            assert(false);
                        }
                    },
                }
            },
            TxPhase::Native => {
                match ev {
                    TxEvent::NativeOk => {
                        self.payload = Ghost(PayloadPlace::AtOriginal);
                        if self.relocate {
                            self.phase = TxPhase::Relocate;
                        } else {
                            self.outcome = Some(Ok(()));
                            self.phase = TxPhase::Done;
                        }
                    },
                    TxEvent::NativeCollision => {
                        if self.temp_path.is_some() {
                            self.pending_error = Some(TrashError::RestoreConflict);
                            self.phase = TxPhase::Rollback;
                        } else {
                            self.outcome = Some(Err(TrashError::RestoreConflict));
                            self.phase = TxPhase::Done;
                        }
                    },
                    TxEvent::NativeFailed => {
                        if self.temp_path.is_some() {
                            self.pending_error = Some(TrashError::BackendFailed);
                            self.phase = TxPhase::Rollback;
                        } else {
                            self.outcome = Some(Err(TrashError::BackendFailed));
                            self.phase = TxPhase::Done;
                        }
                    },
                    _ => {
                        proof {
                            assert(false);
                        }
                    },
                }
            },
            TxPhase::Relocate => {
                match ev {
                    TxEvent::RenameOk => {
                        self.payload = Ghost(PayloadPlace::AtDest);
                        if self.temp_path.is_some() {
                            self.phase = TxPhase::PutBack;
                        } else {
                            self.outcome = Some(Ok(()));
                            self.phase = TxPhase::Done;
                        }
                    },
                    TxEvent::RenameFailed => {
                        if self.temp_path.is_some() {
                            self.pending_error = Some(TrashError::MoveFailed);
                            self.phase = TxPhase::Rollback;
                        } else {
                            self.outcome = Some(Err(TrashError::MoveFailed));
                            self.phase = TxPhase::Done;
                        }
                    },
                    _ => {
                        proof {
                            assert(false);
                        }
                    },
                }
            },
            TxPhase::PutBack => {
                match ev {
                    TxEvent::RenameOk => {
                        self.occupant = Ghost(OccupantPlace::AtOriginal);
                        self.outcome = Some(Ok(()));
                        self.phase = TxPhase::Done;
                    },
                    TxEvent::RenameFailed => {
                        self.occupant_stranded = true;
                        self.outcome = Some(Ok(()));
                        self.phase = TxPhase::Done;
                    },
                    _ => {
                        proof {
                            assert(false);
                        }
                    },
                }
            },
            TxPhase::Rollback => {
                let e = match self.pending_error {
                    Some(e) => e,
                    None => {
                        proof {
                            assert(false);
                        }
                        TrashError::IoError
                    },
                };
                match ev {
                    TxEvent::RenameOk => {
                        self.occupant = Ghost(OccupantPlace::AtOriginal);
                        proof {
                            if self.payload@ == PayloadPlace::AtOriginal {
                                self.payload@ = PayloadPlace::Displaced;
                            }
                        }
                        self.pending_error = None;
                        self.outcome = Some(Err(e));
                        self.phase = TxPhase::Done;
                    },
                    TxEvent::RenameFailed => {
                        self.rollback_failed = true;
                        self.pending_error = None;
                        self.outcome = Some(Err(e));
                        self.phase = TxPhase::Done;
                    },
                    _ => {
                        proof {
                            assert(false);
                        }
                    },
                }
            },
            TxPhase::Done => {
                proof {
                    assert(false);
                }
            },
        }
    }
}

/// The view of an optional path.
pub open spec fn opt_path_view(o: Option<Vec<u8>>) -> Option<Seq<u8>> {
    match o {
        Some(v) => Some(v@),
        None => None,
    }
}

/// What an OS-trash cleanup run decided.
#[derive(Clone, Copy, Debug, PartialEq, Eq, Structural)]
pub enum OsCleanupOutcome {
    /// The platform trash was already empty; nothing asked, nothing purged.
    NothingToClean,
    /// The user declined; nothing purged.
    Cancelled,
    /// Confirmed and purged.
    Cleaned,
}

/// The platform trash backend.
pub struct OsTrash;

/// `os-trash-info`, the side-channel store's directory name.
pub open spec fn os_info_word() -> Seq<u8> {
    seq![111u8, 115u8, 45u8, 116u8, 114u8, 97u8, 115u8, 104u8, 45u8, 105u8, 110u8, 102u8, 111u8]
}

/// `.Trash`, the platform trash root under a home directory.
pub open spec fn dot_trash_word() -> Seq<u8> {
    seq![46u8, 84u8, 114u8, 97u8, 115u8, 104u8]
}

/// `/tmp/.Trash`, the last-resort trash root.
pub open spec fn tmp_trash_word() -> Seq<u8> {
    seq![47u8, 116u8, 109u8, 112u8, 47u8, 46u8, 84u8, 114u8, 97u8, 115u8, 104u8]
}

/// Where the side-channel store lives, given what the environment offers.
pub open spec fn os_info_dir_of(data_dir: Option<Seq<u8>>, home_dir: Option<Seq<u8>>) -> Seq<u8> {
    let root = match data_dir {
        Some(d) => d,
        None => match home_dir {
            Some(h) => crate::bytes::join_bytes(h, crate::managed::local_share_word()),
            None => crate::managed::tmp_fallback_word(),
        },
    };
    crate::bytes::join_bytes(
        crate::bytes::join_bytes(root, crate::managed::saferm_word()),
        os_info_word(),
    )
}

/// Where the platform trash root sits, given the home directory.
pub open spec fn os_trash_dir_of(home_dir: Option<Seq<u8>>) -> Seq<u8> {
    match home_dir {
        Some(h) => crate::bytes::join_bytes(h, dot_trash_word()),
        None => tmp_trash_word(),
    }
}

impl OsTrash {
    /// The side-channel store's path: `saferm/os-trash-info` under the data
    /// directory, with the same stand-ins as the holding area's base.
    pub fn info_dir(data_dir: Option<Vec<u8>>, home_dir: Option<Vec<u8>>) -> (r: Vec<u8>)
        ensures
            r@ == os_info_dir_of(
                match data_dir {
                    Some(d) => Some(d@),
                    None => None,
                },
                match home_dir {
                    Some(h) => Some(h@),
                    None => None,
                },
            ),
    {
        let root: Vec<u8> = match data_dir {
            Some(d) => d,
            None => {
                match home_dir {
                    Some(h) => {
                        let mut w: Vec<u8> = Vec::new();
                        w.push(46);
                        w.push(108);
                        w.push(111);
                        w.push(99);
                        w.push(97);
                        w.push(108);
                        w.push(47);
                        w.push(115);
                        w.push(104);
                        w.push(97);
                        w.push(114);
                        w.push(101);
                        proof {
                            assert(w@ =~= crate::managed::local_share_word());
                        }
                        crate::bytes::path_join(h.as_slice(), w.as_slice())
                    },
                    None => {
                        let mut w: Vec<u8> = Vec::new();
                        w.push(47);
                        w.push(116);
                        w.push(109);
                        w.push(112);
                        w.push(47);
                        w.push(115);
                        w.push(97);
                        w.push(102);
                        w.push(101);
                        w.push(114);
                        w.push(109);
                        proof {
                            assert(w@ =~= crate::managed::tmp_fallback_word());
                        }
                        w
                    },
                }
            },
        };
        let mut saferm_w: Vec<u8> = Vec::new();
        saferm_w.push(115);
        saferm_w.push(97);
        saferm_w.push(102);
        saferm_w.push(101);
        saferm_w.push(114);
        saferm_w.push(109);
        proof {
            assert(saferm_w@ =~= crate::managed::saferm_word());
        }
        let mut info_w: Vec<u8> = Vec::new();
        info_w.push(111);
        info_w.push(115);
        info_w.push(45);
        info_w.push(116);
        info_w.push(114);
        info_w.push(97);
        info_w.push(115);
        info_w.push(104);
        info_w.push(45);
        info_w.push(105);
        info_w.push(110);
        info_w.push(102);
        info_w.push(111);
        proof {
            assert(info_w@ =~= os_info_word());
        }
        let with_app = crate::bytes::path_join(root.as_slice(), saferm_w.as_slice());
        crate::bytes::path_join(with_app.as_slice(), info_w.as_slice())
    }

    /// The platform trash root: `.Trash` under the home directory, or the
    /// last-resort path when no home is known.
    pub fn trash_dir(home_dir: Option<Vec<u8>>) -> (r: Vec<u8>)
        ensures
            r@ == os_trash_dir_of(
                match home_dir {
                    Some(h) => Some(h@),
                    None => None,
                },
            ),
    {
        match home_dir {
            Some(h) => {
                let mut w: Vec<u8> = Vec::new();
                w.push(46);
                w.push(84);
                w.push(114);
                w.push(97);
                w.push(115);
                w.push(104);
                proof {
                    assert(w@ =~= dot_trash_word());
                }
                crate::bytes::path_join(h.as_slice(), w.as_slice())
            },
            None => {
                let mut w: Vec<u8> = Vec::new();
                w.push(47);
                w.push(116);
                w.push(109);
                w.push(112);
                w.push(47);
                w.push(46);
                w.push(84);
                w.push(114);
                w.push(97);
                w.push(115);
                w.push(104);
                proof {
                    assert(w@ =~= tmp_trash_word());
                }
                w
            },
        }
    }

    /// This backend's name.
    pub fn backend_name(&self) -> (r: &'static str)
        ensures
            r@ == "os"@,
    {
        "os"
    }

    /// Hands a target to the platform trash facility. A symbolic link never
    /// comes here: `ops::trash_method` routes every link to a plain unlink,
    /// so a link's target is never handed to the facility. A path
    /// without a real final file name (empty, `.` or `..`) is refused here,
    /// before the facility ever sees it: the facility would collapse such a
    /// path onto its parent. Callers should canonicalize first, as the
    /// managed path does. Failures are `BackendFailed`; nothing else can
    /// fail.
    pub fn trash(&self, path: &[u8]) -> (r: Result<(), TrashError>)
        ensures
            !real_file_name(path@) ==> r == Err::<(), TrashError>(TrashError::BackendFailed),
            r matches Err(e) ==> e == TrashError::BackendFailed,
    {
        if !has_real_file_name(path) {
            return Err(TrashError::BackendFailed);
        }
        match os_delete_raw(path) {
            Ok(()) => Ok(()),
            Err(_) => Err(TrashError::BackendFailed),
        }
    }

    /// Lists the restorable items of the platform trash, filtered: exactly
    /// the listed items whose name or original path contains the pattern —
    /// in particular, everything handed back falls under the filter. A
    /// facility failure is `BackendFailed`.
    pub fn list_restorable(&self, filter: Option<&Vec<u8>>) -> (r: Result<
        Vec<RestorableItem>,
        TrashError,
    >)
        ensures
            match r {
                Ok(v) => {
                    &&& exists|raw: Seq<OsItemView>|
                        v.deep_view() == #[trigger] os_filtered(
                            raw,
                            crate::handler::pat_of(filter),
                        )
                    &&& forall|k: int|
                        0 <= k < v.deep_view().len() ==> (match crate::handler::pat_of(filter) {
                            Some(p) => crate::bytes::contains_bytes(
                                (#[trigger] v.deep_view()[k]).display_name,
                                p,
                            ) || crate::bytes::contains_bytes(v.deep_view()[k].original_path, p),
                            None => true,
                        })
                },
                Err(e) => e == TrashError::BackendFailed,
            },
    {
        match os_list_raw() {
            Ok(items) => {
                let r = filter_os_items(&items, filter);
                proof {
                    let pat = crate::handler::pat_of(filter);
                    assert(r.deep_view() == os_filtered(os_items_view(items@), pat));
                    lemma_os_filter_correct(os_items_view(items@), pat);
                }
                Ok(r)
            },
            Err(_) => Err(TrashError::BackendFailed),
        }
    }

    /// Restores one native item to its original path. An occupied original
    /// path is a `RestoreConflict`, kept apart from other failures.
    pub fn restore_native(&self, item: OsItem) -> (r: Result<(), TrashError>)
        ensures
            r matches Err(e) ==> (e == TrashError::RestoreConflict || e
                == TrashError::BackendFailed),
    {
        match os_restore_raw(item) {
            Ok(()) => Ok(()),
            Err(RestoreFailure::Collision) => Err(TrashError::RestoreConflict),
            Err(RestoreFailure::Other) => Err(TrashError::BackendFailed),
        }
    }

    /// Empties the platform trash. `items` is its listing (`raw_listing`)
    /// and `confirmed` the user's answer. An empty listing is nothing to
    /// clean, whatever the answer — no question is owed for it. A decline
    /// cancels with nothing purged: a cleanup never purges against a no.
    /// Only a confirmed, non-empty listing is handed — whole, exactly as
    /// given — to the facility's purge, whose failure is `BackendFailed`.
    pub fn cleanup(&self, items: Vec<OsItem>, confirmed: bool) -> (r: Result<
        OsCleanupOutcome,
        TrashError,
    >)
        ensures
            items@.len() == 0 ==> r == Ok::<OsCleanupOutcome, TrashError>(
                OsCleanupOutcome::NothingToClean,
            ),
            items@.len() > 0 && !confirmed ==> r == Ok::<OsCleanupOutcome, TrashError>(
                OsCleanupOutcome::Cancelled,
            ),
            items@.len() > 0 && confirmed ==> (r == Ok::<OsCleanupOutcome, TrashError>(
                OsCleanupOutcome::Cleaned,
            ) || r == Err::<OsCleanupOutcome, TrashError>(TrashError::BackendFailed)),
    {
        if items.len() == 0 {
            return Ok(OsCleanupOutcome::NothingToClean);
        }
        if !confirmed {
            return Ok(OsCleanupOutcome::Cancelled);
        }
        match os_purge_raw(items) {
            Ok(()) => Ok(OsCleanupOutcome::Cleaned),
            Err(_) => Err(TrashError::BackendFailed),
        }
    }

    /// Must the user be asked before purging? Exactly when the listing is
    /// non-empty.
    pub fn cleanup_needs_confirmation(&self, items: &Vec<OsItem>) -> (r: bool)
        ensures
            r == (items@.len() > 0),
    {
        items.len() > 0
    }
}

} // verus!
