//! The managed holding area: trash semantics over two parallel directories,
//! a payload store (`files`) and an info store (`info`), with no platform
//! trash involved.
//!
//! The filesystem itself is outside: callers observe it (directory listings,
//! file contents) into a [`TrashStore`], call the operations here, and carry
//! out the small plans they return (a rename, a file to write, files to
//! remove). Every decision — which stored name is safe, what the record
//! says, what a listing means, what cleanup may touch — is made and proved
//! here.

use vstd::prelude::*;

use crate::bytes::join_bytes;
use crate::datetime::DateTime;
use crate::handler::{RestorableItem, RestorableView};
use crate::naming::{base_name_of, numbered_candidate};
use crate::trashinfo::{info_bytes, parsed_info};
use crate::TrashError;

verus! {

/// `files`, the payload store's directory name.
pub open spec fn files_word() -> Seq<u8> {
    seq![102u8, 105u8, 108u8, 101u8, 115u8]
}

/// `info`, the info store's directory name.
pub open spec fn info_word() -> Seq<u8> {
    seq![105u8, 110u8, 102u8, 111u8]
}

/// `.trashinfo`, the suffix an info record's file name carries.
pub open spec fn info_suffix() -> Seq<u8> {
    seq![46u8, 116u8, 114u8, 97u8, 115u8, 104u8, 105u8, 110u8, 102u8, 111u8]
}

fn files_word_v() -> (r: Vec<u8>)
    ensures
        r@ == files_word(),
{
    let mut v: Vec<u8> = Vec::new();
    v.push(102);
    v.push(105);
    v.push(108);
    v.push(101);
    v.push(115);
    proof {
        assert(v@ =~= files_word());
    }
    v
}

fn info_word_v() -> (r: Vec<u8>)
    ensures
        r@ == info_word(),
{
    let mut v: Vec<u8> = Vec::new();
    v.push(105);
    v.push(110);
    v.push(102);
    v.push(111);
    proof {
        assert(v@ =~= info_word());
    }
    v
}

fn info_suffix_v() -> (r: Vec<u8>)
    ensures
        r@ == info_suffix(),
{
    let mut v: Vec<u8> = Vec::new();
    v.push(46);
    v.push(116);
    v.push(114);
    v.push(97);
    v.push(115);
    v.push(104);
    v.push(105);
    v.push(110);
    v.push(102);
    v.push(111);
    proof {
        assert(v@ =~= info_suffix());
    }
    v
}

/// `saferm`, the application's directory under the user data directory.
pub open spec fn saferm_word() -> Seq<u8> {
    seq![115u8, 97u8, 102u8, 101u8, 114u8, 109u8]
}

/// `trash`, the holding area's directory under the application's.
pub open spec fn trash_word() -> Seq<u8> {
    seq![116u8, 114u8, 97u8, 115u8, 104u8]
}

/// `.local/share`, the conventional data directory under a home directory.
pub open spec fn local_share_word() -> Seq<u8> {
    seq![46u8, 108u8, 111u8, 99u8, 97u8, 108u8, 47u8, 115u8, 104u8, 97u8, 114u8, 101u8]
}

/// `/tmp/saferm`, the last-resort root when no user directory is known.
pub open spec fn tmp_fallback_word() -> Seq<u8> {
    seq![47u8, 116u8, 109u8, 112u8, 47u8, 115u8, 97u8, 102u8, 101u8, 114u8, 109u8]
}

/// Where the holding area lives, given what the environment offers.
pub open spec fn base_dir_of(
    override_dir: Option<Seq<u8>>,
    data_dir: Option<Seq<u8>>,
    home_dir: Option<Seq<u8>>,
) -> Seq<u8> {
    match override_dir {
        Some(d) => d,
        None => {
            let root = match data_dir {
                Some(d) => d,
                None => match home_dir {
                    Some(h) => join_bytes(h, local_share_word()),
                    None => tmp_fallback_word(),
                },
            };
            join_bytes(join_bytes(root, saferm_word()), trash_word())
        },
    }
}

/// The ghost shape of one trashed item in the holding area.
pub struct ItemView {
    /// The collision-safe name the payload is stored under.
    pub stored_name: Seq<u8>,
    /// The absolute path the item had before it was trashed.
    pub original_path: Seq<u8>,
    /// When it was trashed, if its record said so legibly.
    pub deleted_at: Option<DateTime>,
}

/// One trashed item: a payload name and its metadata record.
pub struct TrashEntry {
    pub stored_name: Vec<u8>,
    pub original_path: Vec<u8>,
    pub deleted_at: Option<DateTime>,
}

impl View for TrashEntry {
    type V = ItemView;

    open spec fn view(&self) -> ItemView {
        ItemView {
            stored_name: self.stored_name@,
            original_path: self.original_path@,
            deleted_at: self.deleted_at,
        }
    }
}

/// One file of the info store: its name and its content.
pub struct InfoFile {
    pub name: Vec<u8>,
    pub content: Vec<u8>,
}

/// The ghost shape of an info-store file.
pub struct InfoFileView {
    pub name: Seq<u8>,
    pub content: Seq<u8>,
}

impl View for InfoFile {
    type V = InfoFileView;

    open spec fn view(&self) -> InfoFileView {
        InfoFileView { name: self.name@, content: self.content@ }
    }
}

pub open spec fn items_of(entries: Seq<TrashEntry>) -> Seq<ItemView> {
    Seq::new(entries.len(), |i: int| entries[i]@)
}

pub open spec fn infos_view(infos: Seq<InfoFile>) -> Seq<InfoFileView> {
    Seq::new(infos.len(), |i: int| infos[i]@)
}

/// The in-memory image of the holding area: which names the payload store
/// holds, and the valid metadata records beside them.
pub struct TrashStore {
    payload_names: Vec<Vec<u8>>,
    entries: Vec<TrashEntry>,
}

/// What one info-store file contributes: an item, if its name carries the
/// record suffix, its payload still exists, and its content parses.
pub open spec fn info_item(payload: Seq<Seq<u8>>, f: InfoFileView) -> Option<ItemView> {
    if f.name.len() > info_suffix().len() && f.name.skip(
        f.name.len() - info_suffix().len(),
    ) == info_suffix() {
        let stem = f.name.take(f.name.len() - info_suffix().len());
        if payload.contains(stem) {
            match parsed_info(f.content) {
                Some(pd) => Some(
                    ItemView { stored_name: stem, original_path: pd.0, deleted_at: pd.1 },
                ),
                None => None,
            }
        } else {
            None
        }
    } else {
        None
    }
}

/// The items an info-store listing yields, in listing order.
pub open spec fn store_items_of(payload: Seq<Seq<u8>>, infos: Seq<InfoFileView>) -> Seq<ItemView>
    decreases infos.len(),
{
    if infos.len() == 0 {
        Seq::empty()
    } else {
        let rest = store_items_of(payload, infos.skip(1));
        match info_item(payload, infos[0]) {
            Some(it) => seq![it] + rest,
            None => rest,
        }
    }
}

impl TrashStore {
    /// The names the payload store holds.
    pub closed spec fn names(self) -> Seq<Seq<u8>> {
        self.payload_names.deep_view()
    }

    /// The restorable items: each payload name that has a readable record.
    pub closed spec fn items(self) -> Seq<ItemView> {
        items_of(self.entries@)
    }

    /// Every item's payload exists, and no stored name repeats: a dangling
    /// record is never surfaced, and no name ever points at two payloads.
    pub open spec fn wf(self) -> bool {
        &&& self.names().no_duplicates()
        &&& forall|k: int|
            0 <= k < self.items().len() ==> self.names().contains(
                #[trigger] self.items()[k].stored_name,
            )
        &&& forall|k: int, l: int|
            0 <= k < self.items().len() && 0 <= l < self.items().len() && k != l
                ==> self.items()[k].stored_name != self.items()[l].stored_name
    }

    /// An image of an empty holding area.
    pub fn empty() -> (s: Self)
        ensures
            s.wf(),
            s.names() == Seq::<Seq<u8>>::empty(),
            s.items() == Seq::<ItemView>::empty(),
    {
        let s = TrashStore { payload_names: Vec::new(), entries: Vec::new() };
        proof {
            assert(s.names() =~= Seq::<Seq<u8>>::empty());
            assert(s.items() =~= Seq::<ItemView>::empty());
        }
        s
    }

    /// Builds the image from directory listings: the payload store's names,
    /// and the info store's files with their contents. A record whose name
    /// lacks the suffix, whose payload is gone, or whose content does not
    /// parse is skipped, never surfaced.
    pub fn from_listing(payload_names: Vec<Vec<u8>>, infos: &Vec<InfoFile>) -> (s: Self)
        requires
            payload_names.deep_view().no_duplicates(),
            forall|k: int, l: int|
                0 <= k < infos.len() && 0 <= l < infos.len() && k != l ==> infos@[k]@.name
                    != infos@[l]@.name,
        ensures
            s.wf(),
            s.names() == payload_names.deep_view(),
            s.items() == store_items_of(payload_names.deep_view(), infos_view(infos@)),
    {
        let ghost pv = payload_names.deep_view();
        let ghost iv = infos_view(infos@);
        let suffix = info_suffix_v();
        let mut entries: Vec<TrashEntry> = Vec::new();
        let mut i: usize = 0;
        proof {
            assert(iv.skip(0) =~= iv);
            assert(items_of(entries@) =~= Seq::<ItemView>::empty());
        }
        loop
            invariant
                i <= infos.len(),
                suffix@ == info_suffix(),
                pv == payload_names.deep_view(),
                iv == infos_view(infos@),
                pv.no_duplicates(),
                forall|k: int, l: int|
                    0 <= k < infos.len() && 0 <= l < infos.len() && k != l ==> infos@[k]@.name
                        != infos@[l]@.name,
                items_of(entries@) + store_items_of(pv, iv.skip(i as int)) == store_items_of(
                    pv,
                    iv,
                ),
                forall|k: int|
                    0 <= k < entries@.len() ==> pv.contains(#[trigger] entries@[k]@.stored_name),
                forall|k: int|
                    0 <= k < entries@.len() ==> exists|j: int|
                        0 <= j < i && infos@[j]@.name == (#[trigger] entries@[k]@).stored_name
                            + info_suffix(),
                forall|k: int, l: int|
                    0 <= k < entries@.len() && 0 <= l < entries@.len() && k != l
                        ==> entries@[k]@.stored_name != entries@[l]@.stored_name,
            ensures
                items_of(entries@) == store_items_of(pv, iv),
                forall|k: int|
                    0 <= k < entries@.len() ==> pv.contains(#[trigger] entries@[k]@.stored_name),
                forall|k: int, l: int|
                    0 <= k < entries@.len() && 0 <= l < entries@.len() && k != l
                        ==> entries@[k]@.stored_name != entries@[l]@.stored_name,
            decreases infos.len() - i,
        {
            if i == infos.len() {
                proof {
                    assert(iv.skip(i as int) =~= Seq::<InfoFileView>::empty());
                    assert(items_of(entries@) + Seq::<ItemView>::empty() =~= items_of(entries@));
                }
                break;
            }
            let ghost f = iv[i as int];
            let ghost rest_before = store_items_of(pv, iv.skip(i as int));
            proof {
                assert(iv.skip(i as int)[0] == f);
                assert(iv.skip(i as int).skip(1) =~= iv.skip(i as int + 1));
                assert(rest_before == match info_item(pv, f) {
                    Some(it) => seq![it] + store_items_of(pv, iv.skip(i as int + 1)),
                    None => store_items_of(pv, iv.skip(i as int + 1)),
                });
            }
            let name_len = infos[i].name.len();
            if name_len > suffix.len() && crate::bytes::matches_at_exec(
                infos[i].name.as_slice(),
                suffix.as_slice(),
                name_len - suffix.len(),
            ) {
                proof {
                    assert(f.name.skip(f.name.len() - info_suffix().len()) =~= f.name.subrange(
                        name_len - suffix@.len(),
                        name_len as int,
                    ));
                }
                let stem = crate::bytes::sub_vec(infos[i].name.as_slice(), 0, name_len
                    - suffix.len());
                proof {
                    assert(stem@ =~= f.name.take(f.name.len() - info_suffix().len()));
                }
                if crate::naming::contains_name(&payload_names, stem.as_slice()) {
                    match crate::trashinfo::parse_trashinfo(infos[i].content.as_slice()) {
                        Some(rec) => {
                            let ghost before = entries@;
                            let e = TrashEntry {
                                stored_name: stem,
                                original_path: rec.original_path,
                                deleted_at: rec.deleted_at,
                            };
                            proof {
                                assert((e@.stored_name + info_suffix()) =~= f.name);
                                assert forall|k: int| 0 <= k < before.len() implies before[k]@.stored_name
                                    != e@.stored_name by {
                                    assert(exists|j: int|
                                        0 <= j < i && infos@[j]@.name == (before[k]@).stored_name
                                            + info_suffix());
                                    let j = choose|j: int|
                                        0 <= j < i && infos@[j]@.name == (before[k]@).stored_name
                                            + info_suffix();
                                    if before[k]@.stored_name == e@.stored_name {
                                        assert(infos@[j]@.name == infos@[i as int]@.name);
                                    }
                                }
                            }
                            entries.push(e);
                            proof {
                                assert(items_of(entries@) =~= items_of(before).push(e@));
                                assert(items_of(before).push(e@) + store_items_of(
                                    pv,
                                    iv.skip(i as int + 1),
                                ) =~= items_of(before) + (seq![e@] + store_items_of(
                                    pv,
                                    iv.skip(i as int + 1),
                                )));
                                assert(info_item(pv, f) == Some(e@));
                            }
                        },
                        None => {
                            proof {
                                assert(info_item(pv, f) is None);
                            }
                        },
                    }
                } else {
                    proof {
                        assert(info_item(pv, f) is None);
                    }
                }
            } else {
                proof {
                    if f.name.len() > info_suffix().len() {
                        assert(f.name.skip(f.name.len() - info_suffix().len()) =~= f.name.subrange(
                            name_len - suffix@.len(),
                            name_len as int,
                        ));
                    }
                    assert(info_item(pv, f) is None);
                }
            }
            i += 1;
        }
        let s = TrashStore { payload_names, entries };
        s
    }
}

/// `items` with every item stored under `id` removed.
pub open spec fn drop_items_named(items: Seq<ItemView>, id: Seq<u8>) -> Seq<ItemView>
    decreases items.len(),
{
    if items.len() == 0 {
        Seq::empty()
    } else {
        let rest = drop_items_named(items.skip(1), id);
        if items[0].stored_name == id {
            rest
        } else {
            seq![items[0]] + rest
        }
    }
}

/// `names` with every occurrence of `id` removed.
pub open spec fn drop_name_from(names: Seq<Seq<u8>>, id: Seq<u8>) -> Seq<Seq<u8>>
    decreases names.len(),
{
    if names.len() == 0 {
        Seq::empty()
    } else {
        let rest = drop_name_from(names.skip(1), id);
        if names[0] == id {
            rest
        } else {
            seq![names[0]] + rest
        }
    }
}

/// Dropping a name keeps exactly the other names.
pub proof fn lemma_drop_names_contains(names: Seq<Seq<u8>>, id: Seq<u8>, x: Seq<u8>)
    ensures
        drop_name_from(names, id).contains(x) <==> (names.contains(x) && x != id),
    decreases names.len(),
{
    if names.len() > 0 {
        lemma_drop_names_contains(names.skip(1), id, x);
        let rest = drop_name_from(names.skip(1), id);
        if names[0] != id {
            let r = seq![names[0]] + rest;
            assert(r[0] == names[0]);
            assert(r.skip(1) =~= rest);
            if r.contains(x) {
                let k = choose|k: int| 0 <= k < r.len() && r[k] == x;
                if k > 0 {
                    assert(rest[k - 1] == x);
                }
            }
            if names.contains(x) {
                let k = choose|k: int| 0 <= k < names.len() && names[k] == x;
                if k > 0 {
                    assert(names.skip(1)[k - 1] == x);
                }
            }
            if rest.contains(x) {
                let k = choose|k: int| 0 <= k < rest.len() && rest[k] == x;
                assert(r[k + 1] == x);
            }
            if names.skip(1).contains(x) {
                let k = choose|k: int| 0 <= k < names.skip(1).len() && names.skip(1)[k] == x;
                assert(names[k + 1] == x);
            }
        } else {
            if names.contains(x) && x != id {
                let k = choose|k: int| 0 <= k < names.len() && names[k] == x;
                assert(k > 0);
                assert(names.skip(1)[k - 1] == x);
            }
            if names.skip(1).contains(x) {
                let k = choose|k: int| 0 <= k < names.skip(1).len() && names.skip(1)[k] == x;
                assert(names[k + 1] == x);
            }
        }
    }
}

/// Dropping a name keeps the remaining names distinct.
pub proof fn lemma_drop_names_no_dup(names: Seq<Seq<u8>>, id: Seq<u8>)
    requires
        names.no_duplicates(),
    ensures
        drop_name_from(names, id).no_duplicates(),
    decreases names.len(),
{
    if names.len() > 0 {
        assert(names.skip(1).no_duplicates()) by {
            assert(forall|k: int|
                0 <= k < names.skip(1).len() ==> names.skip(1)[k] == names[k + 1]);
        }
        lemma_drop_names_no_dup(names.skip(1), id);
        let rest = drop_name_from(names.skip(1), id);
        if names[0] != id {
            let r = seq![names[0]] + rest;
            assert forall|k: int, l: int|
                0 <= k < r.len() && 0 <= l < r.len() && k != l implies r[k] != r[l] by {
                if k > 0 && l > 0 {
                    assert(r[k] == rest[k - 1] && r[l] == rest[l - 1]);
                } else {
                    let m = if k == 0 {
                        l
                    } else {
                        k
                    };
                    assert(r[m] == rest[m - 1]);
                    lemma_drop_names_contains(names.skip(1), id, rest[m - 1]);
                    assert(names.skip(1).contains(rest[m - 1]));
                    let j = choose|j: int|
                        0 <= j < names.skip(1).len() && names.skip(1)[j] == rest[m - 1];
                    assert(names[j + 1] == rest[m - 1]);
                }
            }
        }
    }
}

/// Dropping an id keeps a subsequence of the other items, names intact.
pub proof fn lemma_drop_items_props(items: Seq<ItemView>, id: Seq<u8>)
    requires
        forall|k: int, l: int|
            0 <= k < items.len() && 0 <= l < items.len() && k != l ==> items[k].stored_name
                != items[l].stored_name,
    ensures
        forall|k: int|
            0 <= k < drop_items_named(items, id).len() ==> (#[trigger] drop_items_named(
                items,
                id,
            )[k]).stored_name != id,
        forall|k: int|
            0 <= k < drop_items_named(items, id).len() ==> items.contains(
                #[trigger] drop_items_named(items, id)[k],
            ),
        forall|k: int, l: int|
            0 <= k < drop_items_named(items, id).len() && 0 <= l < drop_items_named(items, id).len()
                && k != l ==> drop_items_named(items, id)[k].stored_name != drop_items_named(
                items,
                id,
            )[l].stored_name,
    decreases items.len(),
{
    if items.len() > 0 {
        let tail = items.skip(1);
        assert(forall|k: int| 0 <= k < tail.len() ==> tail[k] == items[k + 1]);
        lemma_drop_items_props(tail, id);
        let rest = drop_items_named(tail, id);
        assert forall|k: int| 0 <= k < rest.len() implies items.contains(#[trigger] rest[k]) by {
            assert(tail.contains(rest[k]));
            let j = choose|j: int| 0 <= j < tail.len() && tail[j] == rest[k];
            assert(items[j + 1] == rest[k]);
        }
        if items[0].stored_name != id {
            let r = seq![items[0]] + rest;
            assert(r[0] == items[0]);
            assert(items.contains(items[0]));
            assert(forall|k: int| 1 <= k < r.len() ==> r[k] == rest[k - 1]);
            assert forall|k: int, l: int|
                0 <= k < r.len() && 0 <= l < r.len() && k != l implies r[k].stored_name
                != r[l].stored_name by {
                if k > 0 && l > 0 {
                } else {
                    let m = if k == 0 {
                        l
                    } else {
                        k
                    };
                    assert(tail.contains(rest[m - 1]));
                    let j = choose|j: int| 0 <= j < tail.len() && tail[j] == rest[m - 1];
                    assert(items[j + 1] == rest[m - 1]);
                    assert(items[0].stored_name != items[j + 1].stored_name);
                }
            }
        }
    }
}

/// Does an item fall under the filter? No filter keeps everything; a pattern
/// keeps an item when it occurs in the stored name or in the original path.
pub open spec fn item_matches(it: ItemView, pat: Option<Seq<u8>>) -> bool {
    match pat {
        None => true,
        Some(p) => crate::bytes::contains_bytes(it.stored_name, p) || crate::bytes::contains_bytes(
            it.original_path,
            p,
        ),
    }
}

/// How an item is presented: the stored name is the id, and the display name
/// is the file name its original path ends in (or the stored name, if the
/// path ends in a separator).
pub open spec fn to_restorable(it: ItemView) -> RestorableView {
    RestorableView {
        id: it.stored_name,
        original_path: it.original_path,
        display_name: if base_name_of(it.original_path).len() > 0 {
            base_name_of(it.original_path)
        } else {
            it.stored_name
        },
        deleted_at: it.deleted_at,
    }
}

/// The items that fall under the filter, in listing order.
pub open spec fn filtered_items(items: Seq<ItemView>, pat: Option<Seq<u8>>) -> Seq<RestorableView>
    decreases items.len(),
{
    if items.len() == 0 {
        Seq::empty()
    } else {
        let rest = filtered_items(items.skip(1), pat);
        if item_matches(items[0], pat) {
            seq![to_restorable(items[0])] + rest
        } else {
            rest
        }
    }
}

/// Filter correctness: everything listed falls under the filter, and every
/// item that falls under it is listed.
pub proof fn lemma_filter_correct(items: Seq<ItemView>, pat: Option<Seq<u8>>)
    ensures
        forall|k: int|
            0 <= k < filtered_items(items, pat).len() ==> exists|j: int|
                0 <= j < items.len() && item_matches(items[j], pat) && #[trigger] filtered_items(
                    items,
                    pat,
                )[k] == to_restorable(items[j]),
        forall|j: int|
            0 <= j < items.len() && item_matches(#[trigger] items[j], pat) ==> filtered_items(
                items,
                pat,
            ).contains(to_restorable(items[j])),
    decreases items.len(),
{
    if items.len() > 0 {
        let tail = items.skip(1);
        assert(forall|k: int| 0 <= k < tail.len() ==> tail[k] == items[k + 1]);
        lemma_filter_correct(tail, pat);
        let rest = filtered_items(tail, pat);
        let r = filtered_items(items, pat);
        assert forall|k: int| 0 <= k < r.len() implies exists|j: int|
            0 <= j < items.len() && item_matches(items[j], pat) && #[trigger] r[k] == to_restorable(
                items[j],
            ) by {
            if item_matches(items[0], pat) {
                if k == 0 {
                    assert(r[0] == to_restorable(items[0]));
                } else {
                    assert(r[k] == rest[k - 1]);
                    let j = choose|j: int|
                        0 <= j < tail.len() && item_matches(tail[j], pat) && rest[k - 1]
                            == to_restorable(tail[j]);
                    assert(items[j + 1] == tail[j]);
                }
            } else {
                assert(r[k] == rest[k]);
                let j = choose|j: int|
                    0 <= j < tail.len() && item_matches(tail[j], pat) && rest[k] == to_restorable(
                        tail[j],
                    );
                assert(items[j + 1] == tail[j]);
            }
        }
        assert forall|j: int|
            0 <= j < items.len() && item_matches(#[trigger] items[j], pat) implies r.contains(
            to_restorable(items[j]),
        ) by {
            if j == 0 {
                assert(r[0] == to_restorable(items[0]));
            } else {
                assert(tail[j - 1] == items[j]);
                assert(rest.contains(to_restorable(tail[j - 1])));
                let k = choose|k: int| 0 <= k < rest.len() && rest[k] == to_restorable(tail[j - 1]);
                if item_matches(items[0], pat) {
                    assert(r[k + 1] == rest[k]);
                } else {
                    assert(r[k] == rest[k]);
                }
            }
        }
    }
}

/// Round trip: trashing an item and then restoring it by the id the trash
/// step chose brings the holding area back to where it was — the payload
/// name is free again and the item is no longer listed. The payload itself
/// moves by rename both ways, from the same stored path, so what comes back
/// is what went in.
pub proof fn lemma_trash_restore_round_trip(
    names: Seq<Seq<u8>>,
    items: Seq<ItemView>,
    it: ItemView,
)
    requires
        !names.contains(it.stored_name),
        forall|k: int|
            0 <= k < items.len() ==> names.contains(#[trigger] items[k].stored_name),
    ensures
        drop_name_from(names.push(it.stored_name), it.stored_name) == names,
        drop_items_named(items.push(it), it.stored_name) == items,
{
    lemma_drop_names_push_last(names, it.stored_name, it.stored_name);
    lemma_drop_names_absent(names, it.stored_name);
    lemma_drop_items_push_last(items, it, it.stored_name);
    lemma_drop_items_absent(items, it.stored_name);
    assert(drop_name_from(names.push(it.stored_name), it.stored_name) =~= names);
    assert(drop_items_named(items.push(it), it.stored_name) =~= items);
}

proof fn lemma_drop_names_push_last(names: Seq<Seq<u8>>, x: Seq<u8>, id: Seq<u8>)
    ensures
        drop_name_from(names.push(x), id) == if x == id {
            drop_name_from(names, id)
        } else {
            drop_name_from(names, id).push(x)
        },
    decreases names.len(),
{
    if names.len() == 0 {
        assert(names.push(x)[0] == x);
        assert(names.push(x).skip(1) =~= Seq::<Seq<u8>>::empty());
        assert(drop_name_from(names.push(x).skip(1), id) == Seq::<Seq<u8>>::empty());
        if x != id {
            assert(drop_name_from(names.push(x), id) =~= drop_name_from(names, id).push(x));
        }
    } else {
        assert(names.push(x)[0] == names[0]);
        assert(names.push(x).skip(1) =~= names.skip(1).push(x));
        lemma_drop_names_push_last(names.skip(1), x, id);
        if names[0] != id {
            if x != id {
                assert(seq![names[0]] + drop_name_from(names.skip(1), id).push(x)
                    =~= (seq![names[0]] + drop_name_from(names.skip(1), id)).push(x));
            }
        }
    }
}

proof fn lemma_drop_names_absent(names: Seq<Seq<u8>>, id: Seq<u8>)
    requires
        !names.contains(id),
    ensures
        drop_name_from(names, id) == names,
    decreases names.len(),
{
    if names.len() > 0 {
        assert(names[0] != id);
        assert(!names.skip(1).contains(id)) by {
            if names.skip(1).contains(id) {
                let k = choose|k: int| 0 <= k < names.skip(1).len() && names.skip(1)[k] == id;
                assert(names[k + 1] == id);
            }
        }
        lemma_drop_names_absent(names.skip(1), id);
        assert(seq![names[0]] + names.skip(1) =~= names);
    }
}

proof fn lemma_drop_items_push_last(items: Seq<ItemView>, x: ItemView, id: Seq<u8>)
    ensures
        drop_items_named(items.push(x), id) == if x.stored_name == id {
            drop_items_named(items, id)
        } else {
            drop_items_named(items, id).push(x)
        },
    decreases items.len(),
{
    if items.len() == 0 {
        assert(items.push(x)[0] == x);
        assert(items.push(x).skip(1) =~= Seq::<ItemView>::empty());
        assert(drop_items_named(items.push(x).skip(1), id) == Seq::<ItemView>::empty());
        if x.stored_name != id {
            assert(drop_items_named(items.push(x), id) =~= drop_items_named(items, id).push(x));
        }
    } else {
        assert(items.push(x)[0] == items[0]);
        assert(items.push(x).skip(1) =~= items.skip(1).push(x));
        lemma_drop_items_push_last(items.skip(1), x, id);
        if items[0].stored_name != id {
            if x.stored_name != id {
                assert(seq![items[0]] + drop_items_named(items.skip(1), id).push(x)
                    =~= (seq![items[0]] + drop_items_named(items.skip(1), id)).push(x));
            }
        }
    }
}

proof fn lemma_drop_items_absent(items: Seq<ItemView>, id: Seq<u8>)
    requires
        forall|k: int| 0 <= k < items.len() ==> (#[trigger] items[k]).stored_name != id,
    ensures
        drop_items_named(items, id) == items,
    decreases items.len(),
{
    if items.len() > 0 {
        assert(forall|k: int| 0 <= k < items.skip(1).len() ==> items.skip(1)[k] == items[k + 1]);
        lemma_drop_items_absent(items.skip(1), id);
        assert(seq![items[0]] + items.skip(1) =~= items);
    }
}

/// Collision safety: a second deletion never reuses a stored name that is
/// taken, so two same-named files trashed in sequence sit under two distinct
/// names, both stay retrievable, and the second move's payload path differs
/// from the first's — neither ever overwrites the other.
pub proof fn lemma_collision_safety(
    names: Seq<Seq<u8>>,
    first: Seq<u8>,
    second: Seq<u8>,
    files_dir: Seq<u8>,
)
    requires
        !names.contains(first),
        !names.push(first).contains(second),
    ensures
        first != second,
        names.push(first).push(second).contains(first),
        names.push(first).push(second).contains(second),
        join_bytes(files_dir, first) != join_bytes(files_dir, second),
{
    let after_first = names.push(first);
    assert(after_first[names.len() as int] == first);
    assert(after_first.contains(first));
    let both = after_first.push(second);
    assert(both[names.len() as int] == first);
    assert(both[names.len() as int + 1] == second);
    if join_bytes(files_dir, first) == join_bytes(files_dir, second) {
        crate::bytes::lemma_join_injective(files_dir, first, second);
    }
}

/// The plan for trashing one target: where its payload goes and what record
/// to write beside it.
pub struct TrashPlan {
    /// The collision-safe name chosen for the payload.
    pub stored_name: Vec<u8>,
    /// The canonical path the payload moves from.
    pub payload_from: Vec<u8>,
    /// The payload-store path it moves to, atomically.
    pub payload_to: Vec<u8>,
    /// Where the metadata record goes.
    pub info_path: Vec<u8>,
    /// The record's content.
    pub info_content: Vec<u8>,
}

/// The plan for restoring one item: the payload moves back out, and the
/// record is removed afterwards.
pub struct RestorePlan {
    /// The payload-store path the payload moves from.
    pub payload_from: Vec<u8>,
    /// The destination it moves to.
    pub payload_to: Vec<u8>,
    /// The record to delete, best effort, once the move succeeded.
    pub info_path: Vec<u8>,
}

/// What a cleanup run decided.
pub enum CleanupOutcome {
    /// The holding area was already empty; nothing was asked, nothing done.
    NothingToClean,
    /// The user declined; nothing done.
    Cancelled,
    /// Confirmed: every listed payload path is to be removed (recursively
    /// for directories), and the info store emptied.
    Cleaned(Vec<Vec<u8>>),
}

/// The managed holding area backend, rooted at a base directory.
pub struct ManagedTrash {
    base_dir: Vec<u8>,
}

impl ManagedTrash {
    /// The backend's base directory.
    pub closed spec fn base(self) -> Seq<u8> {
        self.base_dir@
    }

    /// Where payloads are kept.
    pub open spec fn files_dir_spec(self) -> Seq<u8> {
        join_bytes(self.base(), files_word())
    }

    /// Where metadata records are kept.
    pub open spec fn info_dir_spec(self) -> Seq<u8> {
        join_bytes(self.base(), info_word())
    }

    /// A holding area rooted at the given directory.
    pub fn with_base_dir(base_dir: Vec<u8>) -> (r: Self)
        ensures
            r.base() == base_dir@,
    {
        ManagedTrash { base_dir }
    }

    /// Where the holding area lives: an explicit override wins as it stands;
    /// otherwise `saferm/trash` under the user's data directory, with
    /// `<home>/.local/share` standing in when no data directory is known,
    /// and `/tmp/saferm` as the last resort.
    pub fn resolve_base_dir(
        override_dir: Option<Vec<u8>>,
        data_dir: Option<Vec<u8>>,
        home_dir: Option<Vec<u8>>,
    ) -> (r: Vec<u8>)
        ensures
            r@ == base_dir_of(
                match override_dir {
                    Some(d) => Some(d@),
                    None => None,
                },
                match data_dir {
                    Some(d) => Some(d@),
                    None => None,
                },
                match home_dir {
                    Some(h) => Some(h@),
                    None => None,
                },
            ),
    {
        if let Some(d) = override_dir {
            return d;
        }
        let root: Vec<u8> = match data_dir {
            Some(d) => d,
            None => {
                match home_dir {
                    Some(h) => {
                        let mut w: Vec<u8> = Vec::new();
                        w.push(46);
                        w.push(108);
                        w.push(111);
                        w.push(99);
                        w.push(97);
                        w.push(108);
                        w.push(47);
                        w.push(115);
                        w.push(104);
                        w.push(97);
                        w.push(114);
                        w.push(101);
                        proof {
                            assert(w@ =~= local_share_word());
                        }
                        crate::bytes::path_join(h.as_slice(), w.as_slice())
                    },
                    None => {
                        let mut w: Vec<u8> = Vec::new();
                        w.push(47);
                        w.push(116);
                        w.push(109);
                        w.push(112);
                        w.push(47);
                        w.push(115);
                        w.push(97);
                        w.push(102);
                        w.push(101);
                        w.push(114);
                        w.push(109);
                        proof {
                            assert(w@ =~= tmp_fallback_word());
                        }
                        w
                    },
                }
            },
        };
        let mut saferm_w: Vec<u8> = Vec::new();
        saferm_w.push(115);
        saferm_w.push(97);
        saferm_w.push(102);
        saferm_w.push(101);
        saferm_w.push(114);
        saferm_w.push(109);
        proof {
            assert(saferm_w@ =~= saferm_word());
        }
        let mut trash_w: Vec<u8> = Vec::new();
        trash_w.push(116);
        trash_w.push(114);
        trash_w.push(97);
        trash_w.push(115);
        trash_w.push(104);
        proof {
            assert(trash_w@ =~= trash_word());
        }
        let with_app = crate::bytes::path_join(root.as_slice(), saferm_w.as_slice());
        crate::bytes::path_join(with_app.as_slice(), trash_w.as_slice())
    }

    /// The payload store's path.
    pub fn files_dir(&self) -> (r: Vec<u8>)
        ensures
            r@ == self.files_dir_spec(),
    {
        let w = files_word_v();
        crate::bytes::path_join(self.base_dir.as_slice(), w.as_slice())
    }

    /// The info store's path.
    pub fn info_dir(&self) -> (r: Vec<u8>)
        ensures
            r@ == self.info_dir_spec(),
    {
        let w = info_word_v();
        crate::bytes::path_join(self.base_dir.as_slice(), w.as_slice())
    }

    /// This backend's name.
    pub fn backend_name(&self) -> (r: &'static str)
        ensures
            r@ == "managed"@,
    {
        "managed"
    }

    /// Trashes one target: picks the collision-safe stored name, adds the
    /// item to the store image, and hands back the plan — the payload's
    /// atomic move into the payload store, and the record to write. The name
    /// never collides with a name already taken, so no trashed payload is
    /// ever overwritten; when the original name is free it is kept verbatim,
    /// otherwise the first free numbered candidate is used. A symbolic link
    /// never comes here: `ops::trash_method` routes every link to a plain
    /// unlink, so a link's target is no input to any plan of this backend.
    pub fn trash(
        &self,
        store: &mut TrashStore,
        file_name: &[u8],
        canonical_path: &[u8],
        now: &DateTime,
    ) -> (p: TrashPlan)
        requires
            old(store).wf(),
            now.wf(),
            old(store).names().len() < usize::MAX,
        ensures
            final(store).wf(),
            !old(store).names().contains(p.stored_name@),
            final(store).names() == old(store).names().push(p.stored_name@),
            final(store).items() == old(store).items().push(
                ItemView {
                    stored_name: p.stored_name@,
                    original_path: canonical_path@,
                    deleted_at: Some(*now),
                },
            ),
            p.payload_from@ == canonical_path@,
            p.payload_to@ == join_bytes(self.files_dir_spec(), p.stored_name@),
            p.info_path@ == join_bytes(self.info_dir_spec(), p.stored_name@ + info_suffix()),
            p.info_content@ == info_bytes(canonical_path@, *now),
            !old(store).names().contains(file_name@) ==> p.stored_name@ == file_name@,
            old(store).names().contains(file_name@) ==> exists|i: nat|
                1 <= i && p.stored_name@ == numbered_candidate(file_name@, i) && (forall|j: nat|
                    1 <= j < i ==> old(store).names().contains(
                        #[trigger] numbered_candidate(file_name@, j),
                    )),
    {
        let stored = crate::naming::unique_name(file_name, &store.payload_names);
        let fdir = self.files_dir();
        let payload_to = crate::bytes::path_join(fdir.as_slice(), stored.as_slice());
        let mut info_name = crate::bytes::copy_vec(stored.as_slice());
        let suffix = info_suffix_v();
        crate::bytes::push_all(&mut info_name, suffix.as_slice());
        let idir = self.info_dir();
        let info_path = crate::bytes::path_join(idir.as_slice(), info_name.as_slice());
        let info_content = crate::trashinfo::format_trashinfo(canonical_path, now);
        let entry = TrashEntry {
            stored_name: crate::bytes::copy_vec(stored.as_slice()),
            original_path: crate::bytes::copy_vec(canonical_path),
            deleted_at: Some(*now),
        };
        let ghost old_names = store.payload_names.deep_view();
        let ghost old_items = items_of(store.entries@);
        let name_for_store = crate::bytes::copy_vec(stored.as_slice());
        store.payload_names.push(name_for_store);
        store.entries.push(entry);
        proof {
            assert(store.payload_names.deep_view() =~~= old_names.push(stored@));
            assert(items_of(store.entries@) =~= old_items.push(entry@));
            let nn = store.names();
            let ni = store.items();
            assert(nn.no_duplicates()) by {
                assert(forall|k: int| 0 <= k < old_names.len() ==> nn[k] == old_names[k]);
            }
            assert forall|k: int| 0 <= k < ni.len() implies nn.contains(
                #[trigger] ni[k].stored_name,
            ) by {
                if k < old_items.len() {
                    assert(ni[k] == old_items[k]);
                    let j = choose|j: int|
                        0 <= j < old_names.len() && old_names[j] == old_items[k].stored_name;
                    assert(nn[j] == old_items[k].stored_name);
                } else {
                    assert(nn[nn.len() - 1] == stored@);
                }
            }
            assert forall|k: int, l: int|
                0 <= k < ni.len() && 0 <= l < ni.len() && k != l implies ni[k].stored_name
                != ni[l].stored_name by {
                if k < old_items.len() && l < old_items.len() {
                    assert(ni[k] == old_items[k] && ni[l] == old_items[l]);
                } else {
                    let m = if k < old_items.len() {
                        k
                    } else {
                        l
                    };
                    assert(ni[m] == old_items[m]);
                    assert(old(store).names().contains(old_items[m].stored_name));
                }
            }
        }
        TrashPlan {
            stored_name: stored,
            payload_from: crate::bytes::copy_vec(canonical_path),
            payload_to,
            info_path,
            info_content,
        }
    }

    /// Restores a trashed item to `destination`. The id is the stored
    /// payload name; an id with no payload is `NotFound` and changes
    /// nothing. On success the plan moves the payload out and drops the
    /// record, and the item is gone from the store image.
    pub fn restore_to(&self, store: &mut TrashStore, item_id: &[u8], destination: &[u8]) -> (r:
        Result<RestorePlan, TrashError>)
        requires
            old(store).wf(),
        ensures
            match r {
                Ok(plan) => {
                    &&& old(store).names().contains(item_id@)
                    &&& final(store).names() == drop_name_from(old(store).names(), item_id@)
                    &&& final(store).items() == drop_items_named(old(store).items(), item_id@)
                    &&& final(store).wf()
                    &&& plan.payload_from@ == join_bytes(self.files_dir_spec(), item_id@)
                    &&& plan.payload_to@ == destination@
                    &&& plan.info_path@ == join_bytes(
                        self.info_dir_spec(),
                        item_id@ + info_suffix(),
                    )
                },
                Err(e) => {
                    &&& e == TrashError::NotFound
                    &&& !old(store).names().contains(item_id@)
                    &&& *final(store) == *old(store)
                },
            },
    {
        if !crate::naming::contains_name(&store.payload_names, item_id) {
            return Err(TrashError::NotFound);
        }
        let ghost old_names = store.payload_names.deep_view();
        let ghost old_items = items_of(store.entries@);
        let mut new_names: Vec<Vec<u8>> = Vec::new();
        let mut i: usize = 0;
        proof {
            assert(old_names.skip(0) =~= old_names);
            assert(new_names.deep_view() =~= Seq::<Seq<u8>>::empty());
        }
        loop
            invariant
                i <= store.payload_names.len(),
                old_names == store.payload_names.deep_view(),
                new_names.deep_view() + drop_name_from(old_names.skip(i as int), item_id@)
                    == drop_name_from(old_names, item_id@),
            ensures
                new_names.deep_view() == drop_name_from(old_names, item_id@),
            decreases store.payload_names.len() - i,
        {
            if i == store.payload_names.len() {
                proof {
                    assert(old_names.skip(i as int) =~= Seq::<Seq<u8>>::empty());
                    assert(new_names.deep_view() + Seq::<Seq<u8>>::empty() =~= new_names.deep_view(
                    ));
                }
                break;
            }
            proof {
                assert(old_names.skip(i as int)[0] == old_names[i as int]);
                assert(old_names.skip(i as int).skip(1) =~= old_names.skip(i as int + 1));
                assert(store.payload_names.deep_view()[i as int] =~= store.payload_names@[i as int]@);
            }
            let ghost before = new_names.deep_view();
            if !crate::bytes::bytes_eq(store.payload_names[i].as_slice(), item_id) {
                let kept = crate::bytes::copy_vec(store.payload_names[i].as_slice());
                new_names.push(kept);
                proof {
                    assert(new_names.deep_view() =~~= before.push(old_names[i as int]));
                    assert(before.push(old_names[i as int]) + drop_name_from(
                        old_names.skip(i as int + 1),
                        item_id@,
                    ) =~= before + (seq![old_names[i as int]] + drop_name_from(
                        old_names.skip(i as int + 1),
                        item_id@,
                    )));
                }
            }
            i += 1;
        }
        let mut new_entries: Vec<TrashEntry> = Vec::new();
        let mut j: usize = 0;
        proof {
            assert(old_items.skip(0) =~= old_items);
            assert(items_of(new_entries@) =~= Seq::<ItemView>::empty());
        }
        loop
            invariant
                j <= store.entries.len(),
                old_items == items_of(store.entries@),
                items_of(new_entries@) + drop_items_named(old_items.skip(j as int), item_id@)
                    == drop_items_named(old_items, item_id@),
            ensures
                items_of(new_entries@) == drop_items_named(old_items, item_id@),
            decreases store.entries.len() - j,
        {
            if j == store.entries.len() {
                proof {
                    assert(old_items.skip(j as int) =~= Seq::<ItemView>::empty());
                    assert(items_of(new_entries@) + Seq::<ItemView>::empty() =~= items_of(
                        new_entries@,
                    ));
                }
                break;
            }
            proof {
                assert(old_items.skip(j as int)[0] == old_items[j as int]);
                assert(old_items.skip(j as int).skip(1) =~= old_items.skip(j as int + 1));
            }
            let ghost before = items_of(new_entries@);
            if !crate::bytes::bytes_eq(store.entries[j].stored_name.as_slice(), item_id) {
                let kept = TrashEntry {
                    stored_name: crate::bytes::copy_vec(store.entries[j].stored_name.as_slice()),
                    original_path: crate::bytes::copy_vec(store.entries[j].original_path.as_slice()),
                    deleted_at: store.entries[j].deleted_at,
                };
                proof {
                    assert(kept@ == old_items[j as int]);
                }
                new_entries.push(kept);
                proof {
                    assert(items_of(new_entries@) =~= before.push(old_items[j as int]));
                    assert(before.push(old_items[j as int]) + drop_items_named(
                        old_items.skip(j as int + 1),
                        item_id@,
                    ) =~= before + (seq![old_items[j as int]] + drop_items_named(
                        old_items.skip(j as int + 1),
                        item_id@,
                    )));
                }
            }
            j += 1;
        }
        store.payload_names = new_names;
        store.entries = new_entries;
        proof {
            lemma_drop_names_no_dup(old_names, item_id@);
            lemma_drop_items_props(old_items, item_id@);
            assert forall|k: int| 0 <= k < store.items().len() implies store.names().contains(
                #[trigger] store.items()[k].stored_name,
            ) by {
                assert(old_items.contains(store.items()[k]));
                let m = choose|m: int| 0 <= m < old_items.len() && old_items[m] == store.items()[k];
                assert(old_names.contains(old_items[m].stored_name));
                lemma_drop_names_contains(old_names, item_id@, store.items()[k].stored_name);
            }
        }
        let fdir = self.files_dir();
        let payload_from = crate::bytes::path_join(fdir.as_slice(), item_id);
        let mut info_name = crate::bytes::copy_vec(item_id);
        let suffix = info_suffix_v();
        crate::bytes::push_all(&mut info_name, suffix.as_slice());
        let idir = self.info_dir();
        let info_path = crate::bytes::path_join(idir.as_slice(), info_name.as_slice());
        Ok(
            RestorePlan {
                payload_from,
                payload_to: crate::bytes::copy_vec(destination),
                info_path,
            },
        )
    }

    /// Lists the restorable items, optionally filtered: exactly the store's
    /// items whose stored name or original path contains the pattern, in
    /// listing order, each presented under its stored name as id.
    pub fn list_restorable(&self, store: &TrashStore, filter: Option<&Vec<u8>>) -> (r: Vec<
        RestorableItem,
    >)
        ensures
            r.deep_view() == filtered_items(
                store.items(),
                match filter {
                    Some(p) => Some(p@),
                    None => None,
                },
            ),
    {
        let ghost pat: Option<Seq<u8>> = match filter {
            Some(p) => Some(p@),
            None => None,
        };
        let ghost all = store.items();
        let mut r: Vec<RestorableItem> = Vec::new();
        let mut i: usize = 0;
        proof {
            assert(all.skip(0) =~= all);
            assert(r.deep_view() =~= Seq::<RestorableView>::empty());
        }
        loop
            invariant
                i <= store.entries.len(),
                all == store.items(),
                pat == (match filter {
                    Some(p) => Some(p@),
                    None => None,
                }),
                r.deep_view() + filtered_items(all.skip(i as int), pat) == filtered_items(all, pat),
            ensures
                r.deep_view() == filtered_items(all, pat),
            decreases store.entries.len() - i,
        {
            if i == store.entries.len() {
                proof {
                    assert(all.skip(i as int) =~= Seq::<ItemView>::empty());
                    assert(r.deep_view() + Seq::<RestorableView>::empty() =~= r.deep_view());
                }
                break;
            }
            let ghost it = all[i as int];
            proof {
                assert(all.skip(i as int)[0] == it);
                assert(all.skip(i as int).skip(1) =~= all.skip(i as int + 1));
            }
            let keep = match filter {
                Some(p) => {
                    crate::bytes::contains_sub(store.entries[i].stored_name.as_slice(), p.as_slice())
                        || crate::bytes::contains_sub(
                        store.entries[i].original_path.as_slice(),
                        p.as_slice(),
                    )
                },
                None => true,
            };
            let ghost before = r.deep_view();
            if keep {
                let bn = crate::naming::base_name(store.entries[i].original_path.as_slice());
                let display_name = if bn.len() > 0 {
                    bn
                } else {
                    crate::bytes::copy_vec(store.entries[i].stored_name.as_slice())
                };
                let item = RestorableItem {
                    id: crate::bytes::copy_vec(store.entries[i].stored_name.as_slice()),
                    original_path: crate::bytes::copy_vec(
                        store.entries[i].original_path.as_slice(),
                    ),
                    display_name,
                    deleted_at: store.entries[i].deleted_at,
                };
                proof {
                    assert(item@ == to_restorable(it));
                }
                r.push(item);
                proof {
                    assert(r.deep_view() =~= before.push(to_restorable(it)));
                    assert(before.push(to_restorable(it)) + filtered_items(
                        all.skip(i as int + 1),
                        pat,
                    ) =~= before + (seq![to_restorable(it)] + filtered_items(
                        all.skip(i as int + 1),
                        pat,
                    )));
                }
            }
            i += 1;
        }
        r
    }

    /// Empties the holding area. An already-empty area changes nothing and
    /// succeeds whatever the answer was — any number of times, and
    /// `cleanup_needs_confirmation` says no question is owed for it. A
    /// decline cancels with nothing changed — the one thing a cleanup must
    /// never do is purge against a no. On confirmation, and only then, every
    /// payload path is listed for removal and the store image is emptied.
    pub fn cleanup(&self, store: &mut TrashStore, confirmed: bool) -> (r: CleanupOutcome)
        requires
            old(store).wf(),
        ensures
            old(store).names().len() == 0 ==> (r is NothingToClean && *final(store) == *old(
                store,
            )),
            old(store).names().len() > 0 && !confirmed ==> (r is Cancelled && *final(store)
                == *old(store)),
            old(store).names().len() > 0 && confirmed ==> (r matches CleanupOutcome::Cleaned(paths)
                && {
                &&& paths.deep_view().len() == old(store).names().len()
                &&& forall|k: int|
                    0 <= k < paths.deep_view().len() ==> paths.deep_view()[k] == join_bytes(
                        self.files_dir_spec(),
                        old(store).names()[k],
                    )
                &&& final(store).names().len() == 0
                &&& final(store).items().len() == 0
                &&& final(store).wf()
            }),
    {
        if store.payload_names.len() == 0 {
            return CleanupOutcome::NothingToClean;
        }
        if !confirmed {
            return CleanupOutcome::Cancelled;
        }
        let fdir = self.files_dir();
        let mut paths: Vec<Vec<u8>> = Vec::new();
        let mut i: usize = 0;
        while i < store.payload_names.len()
            invariant
                i <= store.payload_names.len(),
                fdir@ == self.files_dir_spec(),
                paths@.len() == i,
                forall|k: int|
                    0 <= k < i ==> paths@[k]@ == join_bytes(
                        self.files_dir_spec(),
                        store.payload_names@[k]@,
                    ),
            decreases store.payload_names.len() - i,
        {
            let p = crate::bytes::path_join(fdir.as_slice(), store.payload_names[i].as_slice());
            paths.push(p);
            i += 1;
        }
        proof {
            assert(paths.deep_view().len() == old(store).names().len());
            assert forall|k: int| 0 <= k < paths.deep_view().len() implies paths.deep_view()[k]
                == join_bytes(self.files_dir_spec(), old(store).names()[k]) by {
                assert(paths.deep_view()[k] =~= paths@[k]@);
                assert(old(store).names()[k] =~= store.payload_names@[k]@);
            }
        }
        store.payload_names = Vec::new();
        store.entries = Vec::new();
        proof {
            assert(store.names() =~= Seq::<Seq<u8>>::empty());
            assert(store.items() =~= Seq::<ItemView>::empty());
        }
        CleanupOutcome::Cleaned(paths)
    }

    /// Must the user be asked before cleaning? Exactly when something is
    /// there: an empty holding area is cleaned (trivially) without a
    /// question.
    pub fn cleanup_needs_confirmation(&self, store: &TrashStore) -> (r: bool)
        ensures
            r == (store.names().len() > 0),
    {
        store.payload_names.len() > 0
    }
}

impl TrashStore {
    /// How many payload names the image holds; callers check it against the
    /// machine bound `trash` requires.
    pub fn payload_count(&self) -> (r: usize)
        ensures
            r == self.names().len(),
    {
        self.payload_names.len()
    }
}

} // verus!
