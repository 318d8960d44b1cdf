//! Per-target and per-restore decisions: when a target is refused, when the
//! user is asked, which items a restore run selects, and how a destination
//! conflict is resolved.
//!
//! Callers observe the filesystem (does the target exist, is it a symlink, a
//! directory, empty; is the destination occupied; what sits in its
//! directory), hand the observations in, and carry out the decision.

use vstd::prelude::*;

use crate::datetime::dt_bytes_sep;
use crate::digits::{dec_rep, lemma_dec_rep_injective, lemma_dec_rep_len};
use crate::handler::{RestorableItem, RestorableView};
use crate::naming::{base_name_of, dir_prefix_of, ext_of, stem_of};
use crate::prompt::ConfirmKind;
use crate::TrashError;

verus! {

/// What the filesystem says about a delete target. A symbolic link counts as
/// a link whatever it points at, as plain `rm` treats it.
#[derive(Clone, Copy, Debug, PartialEq, Eq, Structural)]
pub enum TargetStatus {
    /// Neither a file nor a dangling link is there.
    Missing,
    /// A symbolic link (possibly to a directory).
    Symlink,
    /// A regular file or anything else that is not a directory.
    File,
    /// A real directory, empty or not.
    Dir { empty: bool },
}

/// What to do with one delete target.
#[derive(Clone, Copy, Debug, PartialEq, Eq, Structural)]
pub enum TargetAction {
    /// The target is missing and force was given: fine, do nothing.
    SkippedMissing,
    /// The user declined the prompt: do nothing.
    Cancelled,
    /// Move the target to the trash.
    Trash,
}

/// How a target reaches the trash: a symbolic link is removed as a link,
/// never resolved, so its target is never touched; anything else moves as a
/// payload.
#[derive(Clone, Copy, Debug, PartialEq, Eq, Structural)]
pub enum TrashMethod {
    RemoveLinkOnly,
    TrashPayload,
}

/// The symlink rule both backends share: a symbolic link — whatever it
/// points at — is removed as the link it is, and anything else moves as a
/// payload. The link's target is never an input to any plan, so nothing
/// planned here can touch it; the unlink itself is the caller's one
/// filesystem action for a link.
pub fn trash_method(status: TargetStatus) -> (r: TrashMethod)
    ensures
        r == (if status is Symlink {
            TrashMethod::RemoveLinkOnly
        } else {
            TrashMethod::TrashPayload
        }),
{
    if let TargetStatus::Symlink = status {
        TrashMethod::RemoveLinkOnly
    } else {
        TrashMethod::TrashPayload
    }
}


/// The part of the per-target decision that needs no prompt: `None` means
/// the user must be asked.
pub open spec fn target_gate(
    status: TargetStatus,
    recursive: bool,
    force: bool,
    dir_flag: bool,
    is_tty: bool,
) -> Option<Result<TargetAction, TrashError>> {
    match status {
        TargetStatus::Missing => if force {
            Some(Ok(TargetAction::SkippedMissing))
        } else {
            Some(Err(TrashError::NotFound))
        },
        TargetStatus::Dir { empty } => if !recursive && !dir_flag {
            Some(Err(TrashError::IsDirectory))
        } else if dir_flag && !recursive && !empty {
            Some(Err(TrashError::IsDirectory))
        } else {
            target_gate_tail(force, is_tty)
        },
        _ => target_gate_tail(force, is_tty),
    }
}

pub open spec fn target_gate_tail(force: bool, is_tty: bool) -> Option<
    Result<TargetAction, TrashError>,
> {
    if !is_tty && !force {
        Some(Err(TrashError::NonInteractiveRefusal))
    } else if !is_tty {
        Some(Ok(TargetAction::Trash))
    } else {
        None
    }
}

/// Which question, if any, one delete target calls for: exactly the targets
/// the gates let through to a terminal are asked about, a directory with the
/// directory question and anything else with the file question.
pub fn target_question(
    status: TargetStatus,
    recursive: bool,
    force: bool,
    dir_flag: bool,
    is_tty: bool,
) -> (r: Option<ConfirmKind>)
    ensures
        r is Some <==> target_gate(status, recursive, force, dir_flag, is_tty) is None,
        r is Some ==> r == Some(
            if status is Dir {
                ConfirmKind::TrashDir
            } else {
                ConfirmKind::TrashFile
            },
        ),
{
    match status {
        TargetStatus::Missing => {
            return None;
        },
        TargetStatus::Dir { empty } => {
            if !recursive && !dir_flag {
                return None;
            }
            if dir_flag && !recursive && !empty {
                return None;
            }
        },
        _ => {},
    }
    if !is_tty {
        return None;
    }
    if let TargetStatus::Dir { empty: _ } = status {
        Some(ConfirmKind::TrashDir)
    } else {
        Some(ConfirmKind::TrashFile)
    }
}

/// Decides one delete target. A missing target errs unless forced; a
/// directory errs without the recursive flag (or, with the empty-dir flag
/// alone, when it is not empty); without a terminal, force is required and
/// skips the question; with a terminal the user is always asked, force or
/// not. `confirmed` is the user's answer to the question `target_question`
/// names (and is ignored on the paths that ask none): the target is trashed
/// exactly when the user said yes, and a no is a quiet cancellation, never
/// an error.
pub fn process_target(
    status: TargetStatus,
    recursive: bool,
    force: bool,
    dir_flag: bool,
    is_tty: bool,
    confirmed: bool,
) -> (r: Result<TargetAction, TrashError>)
    ensures
        match target_gate(status, recursive, force, dir_flag, is_tty) {
            Some(out) => r == out,
            None => r == Ok::<TargetAction, TrashError>(
                if confirmed {
                    TargetAction::Trash
                } else {
                    TargetAction::Cancelled
                },
            ),
        },
{
    match status {
        TargetStatus::Missing => {
            if force {
                return Ok(TargetAction::SkippedMissing);
            }
            return Err(TrashError::NotFound);
        },
        TargetStatus::Dir { empty } => {
            if !recursive && !dir_flag {
                return Err(TrashError::IsDirectory);
            }
            if dir_flag && !recursive && !empty {
                return Err(TrashError::IsDirectory);
            }
        },
        _ => {},
    }
    if !is_tty {
        if !force {
            return Err(TrashError::NonInteractiveRefusal);
        }
        return Ok(TargetAction::Trash);
    }
    if confirmed {
        Ok(TargetAction::Trash)
    } else {
        Ok(TargetAction::Cancelled)
    }
}

/// The restore run's filter: at most one pattern.
pub fn restore_filter(targets: &Vec<Vec<u8>>) -> (r: Result<Option<Vec<u8>>, TrashError>)
    ensures
        targets.len() == 0 ==> (r matches Ok(o) && o is None),
        targets.len() == 1 ==> (r matches Ok(o) && (o matches Some(p) && p@
            == targets.deep_view()[0])),
        targets.len() > 1 ==> r == Err::<Option<Vec<u8>>, TrashError>(TrashError::TooManyPatterns),
{
    if targets.len() > 1 {
        return Err(TrashError::TooManyPatterns);
    }
    if targets.len() == 1 {
        let p = crate::bytes::copy_vec(targets[0].as_slice());
        proof {
            assert(targets.deep_view()[0] =~= targets@[0]@);
        }
        return Ok(Some(p));
    }
    Ok(None)
}

/// `unknown`, shown where a deletion time is not on record.
pub open spec fn unknown_word() -> Seq<u8> {
    seq![117u8, 110u8, 107u8, 110u8, 111u8, 119u8, 110u8]
}

/// How one restorable item is offered for selection: its original path and,
/// in parentheses, its deletion time (or `unknown`).
pub open spec fn display_line_of(it: RestorableView) -> Seq<u8> {
    it.original_path + seq![32u8, 40u8] + (match it.deleted_at {
        Some(d) => if d.wf() {
            dt_bytes_sep(d, 32u8)
        } else {
            unknown_word()
        },
        None => unknown_word(),
    }) + seq![41u8]
}

/// Renders one selection line.
pub fn restore_display_line(item: &RestorableItem) -> (r: Vec<u8>)
    ensures
        r@ == display_line_of(item@),
{
    let mut r = crate::bytes::copy_vec(item.original_path.as_slice());
    r.push(32);
    r.push(40);
    let mut shown_unknown = true;
    if let Some(d) = item.deleted_at {
        if d.is_wf() {
            let t = crate::datetime::format_datetime_display(&d);
            crate::bytes::push_all(&mut r, t.as_slice());
            shown_unknown = false;
        }
    }
    if shown_unknown {
        r.push(117);
        r.push(110);
        r.push(107);
        r.push(110);
        r.push(111);
        r.push(119);
        r.push(110);
    }
    r.push(41);
    proof {
        assert(r@ =~= display_line_of(item@));
    }
    r
}

/// Renders every selection line, in order.
pub fn restore_display_options(items: &Vec<RestorableItem>) -> (r: Vec<Vec<u8>>)
    ensures
        r@.len() == items@.len(),
        forall|k: int| 0 <= k < r@.len() ==> r@[k]@ == display_line_of(items@[k]@),
{
    let mut r: Vec<Vec<u8>> = Vec::new();
    let mut i: usize = 0;
    while i < items.len()
        invariant
            i <= items.len(),
            r@.len() == i,
            forall|k: int| 0 <= k < i ==> r@[k]@ == display_line_of(items@[k]@),
        decreases items.len() - i,
    {
        let line = restore_display_line(&items[i]);
        r.push(line);
        i += 1;
    }
    r
}

/// Which items a restore run takes.
pub enum Selection {
    /// Every filtered item (non-interactive, forced).
    All,
    /// The indices the user picked.
    Chosen(Vec<usize>),
    /// The user picked nothing: cancel quietly.
    Cancelled,
}

/// Selects what to restore. With a terminal, `picked` is the user's
/// multi-choice over the displayed items: an empty pick cancels quietly, and
/// anything else is taken exactly as picked. Without one, force selects
/// everything and its absence is a refusal, never a silent prompt attempt.
pub fn select_restore_items(
    n_items: usize,
    is_tty: bool,
    force: bool,
    picked: Option<Vec<usize>>,
) -> (r: Result<Selection, TrashError>)
    requires
        is_tty ==> (picked matches Some(v) && forall|k: int| 0 <= k < v@.len() ==> v@[k] < n_items),
    ensures
        !is_tty && force ==> (r matches Ok(s) && s is All),
        !is_tty && !force ==> r == Err::<Selection, TrashError>(TrashError::NonInteractiveRefusal),
        is_tty ==> (picked matches Some(v) && r == Ok::<Selection, TrashError>(
            if v@.len() == 0 {
                Selection::Cancelled
            } else {
                Selection::Chosen(v)
            },
        )),
{
    if !is_tty {
        if force {
            return Ok(Selection::All);
        }
        return Err(TrashError::NonInteractiveRefusal);
    }
    match picked {
        Some(sel) => {
            if sel.len() == 0 {
                Ok(Selection::Cancelled)
            } else {
                Ok(Selection::Chosen(sel))
            }
        },
        None => {
            proof {
                assert(false);
            }
            Ok(Selection::Cancelled)
        },
    }
}

/// `.restored`, the suffix a renamed restore destination gets.
pub open spec fn restored_word() -> Seq<u8> {
    seq![46u8, 114u8, 101u8, 115u8, 116u8, 111u8, 114u8, 101u8, 100u8]
}

/// `file`, the stem used when the destination has no file name.
pub open spec fn file_word() -> Seq<u8> {
    seq![102u8, 105u8, 108u8, 101u8]
}

/// The `i`-th candidate file name for a conflicting destination named
/// `name`: `.restored` goes before the extension, and from the second try on
/// the counter follows it (`x.restored.txt`, `x.restored2.txt`, ...).
pub open spec fn rename_name(name: Seq<u8>, i: nat) -> Seq<u8> {
    let stem = if name.len() == 0 {
        file_word()
    } else {
        stem_of(name)
    };
    let ext = if name.len() == 0 {
        None
    } else {
        ext_of(name)
    };
    stem + restored_word() + (if i == 1 {
        Seq::<u8>::empty()
    } else {
        dec_rep(i)
    }) + (match ext {
        Some(e) => seq![46u8] + e,
        None => Seq::<u8>::empty(),
    })
}

/// Different counters give different rename candidates.
pub proof fn lemma_rename_name_distinct(name: Seq<u8>, i: nat, j: nat)
    requires
        i != j,
    ensures
        rename_name(name, i) != rename_name(name, j),
{
    let stem = if name.len() == 0 {
        file_word()
    } else {
        stem_of(name)
    };
    let ext = if name.len() == 0 {
        None
    } else {
        ext_of(name)
    };
    let tail = match ext {
        Some(e) => seq![46u8] + e,
        None => Seq::<u8>::empty(),
    };
    let ci = rename_name(name, i);
    let cj = rename_name(name, j);
    if ci == cj {
        if i != 1 {
            lemma_dec_rep_len(i);
            assert(ci == stem + restored_word() + dec_rep(i) + tail);
        } else {
            assert(ci == stem + restored_word() + Seq::<u8>::empty() + tail);
        }
        if j != 1 {
            lemma_dec_rep_len(j);
            assert(cj == stem + restored_word() + dec_rep(j) + tail);
        } else {
            assert(cj == stem + restored_word() + Seq::<u8>::empty() + tail);
        }
        if i == 1 || j == 1 {
            assert(ci.len() != cj.len());
        } else {
            let base = stem.len() + restored_word().len();
            assert(ci.len() == stem.len() + restored_word().len() + dec_rep(i).len() + tail.len());
            assert(cj.len() == stem.len() + restored_word().len() + dec_rep(j).len() + tail.len());
            assert(dec_rep(i).len() == dec_rep(j).len());
            assert(ci.subrange(base as int, base as int + dec_rep(i).len() as int) =~= dec_rep(i));
            assert(cj.subrange(base as int, base as int + dec_rep(j).len() as int) =~= dec_rep(j));
            lemma_dec_rep_injective(i, j);
        }
    }
}

fn render_rename_name(stem: &[u8], ext: &Option<Vec<u8>>, i: u64, ghost_name: Ghost<Seq<u8>>) -> (r:
    Vec<u8>)
    requires
        i >= 1,
        stem@ == (if ghost_name@.len() == 0 {
            file_word()
        } else {
            stem_of(ghost_name@)
        }),
        crate::trashinfo::opt_view(*ext) == (if ghost_name@.len() == 0 {
            None
        } else {
            ext_of(ghost_name@)
        }),
    ensures
        r@ == rename_name(ghost_name@, i as nat),
{
    let mut r = crate::bytes::copy_vec(stem);
    r.push(46);
    r.push(114);
    r.push(101);
    r.push(115);
    r.push(116);
    r.push(111);
    r.push(114);
    r.push(101);
    r.push(100);
    if i != 1 {
        crate::digits::push_dec(&mut r, i);
    }
    match ext {
        Some(e) => {
            r.push(46);
            crate::bytes::push_all(&mut r, e.as_slice());
        },
        None => {},
    }
    proof {
        assert(r@ =~= rename_name(ghost_name@, i as nat));
    }
    r
}

/// `full` is the fresh rename path for `dest` among the taken sibling
/// names: the first numbered candidate whose file name is free, every
/// earlier one being taken. Exactly one path fits this
/// (`lemma_rename_pick_unique`).
pub open spec fn rename_pick(dest: Seq<u8>, sibs: Seq<Seq<u8>>, full: Seq<u8>) -> bool {
    exists|i: nat|
        1 <= i && full == dir_prefix_of(dest) + rename_name(base_name_of(dest), i)
            && !sibs.contains(rename_name(base_name_of(dest), i)) && (forall|j: nat|
            1 <= j < i ==> sibs.contains(#[trigger] rename_name(base_name_of(dest), j)))
}

/// A fresh destination beside a conflicting one: the full path of the first
/// rename candidate whose file name is free in the destination's directory.
pub fn generate_rename_path(dest: &[u8], sibling_names: &Vec<Vec<u8>>) -> (r: Vec<u8>)
    requires
        sibling_names.len() < usize::MAX,
    ensures
        rename_pick(dest@, sibling_names.deep_view(), r@),
{
    let (prefix, name) = crate::naming::split_path(dest);
    let (stem, ext) = if name.len() == 0 {
        let mut w: Vec<u8> = Vec::new();
        w.push(102);
        w.push(105);
        w.push(108);
        w.push(101);
        proof {
            assert(w@ =~= file_word());
        }
        (w, None)
    } else {
        crate::naming::split_name(name.as_slice())
    };
    let mut i: usize = 1;
    loop
        invariant
            sibling_names.len() < usize::MAX,
            prefix@ == dir_prefix_of(dest@),
            name@ == base_name_of(dest@),
            stem@ == (if name@.len() == 0 {
                file_word()
            } else {
                stem_of(name@)
            }),
            crate::trashinfo::opt_view(ext) == (if name@.len() == 0 {
                None
            } else {
                ext_of(name@)
            }),
            1 <= i <= sibling_names.len() + 1,
            forall|j: nat|
                1 <= j < i ==> sibling_names.deep_view().contains(
                    #[trigger] rename_name(name@, j),
                ),
        decreases sibling_names.len() + 1 - i,
    {
        let c = render_rename_name(stem.as_slice(), &ext, i as u64, Ghost(name@));
        if !crate::naming::contains_name(sibling_names, c.as_slice()) {
            let mut full = crate::bytes::copy_vec(prefix.as_slice());
            crate::bytes::push_all(&mut full, c.as_slice());
            proof {
                assert(c@ == rename_name(base_name_of(dest@), i as nat));
            }
            return full;
        }
        proof {
            let fcl = |k: nat| rename_name(name@, k);
            assert forall|p: nat, q: nat| p != q implies #[trigger] fcl(p) != #[trigger] fcl(
                q,
            ) by {
                lemma_rename_name_distinct(name@, p, q);
            }
            assert forall|j: nat| 1 <= j <= i as nat implies sibling_names.deep_view().contains(
                #[trigger] fcl(j),
            ) by {
                assert(sibling_names.deep_view().contains(rename_name(name@, j)));
            }
            crate::naming::lemma_probe_bound_injective(
                fcl,
                sibling_names.deep_view(),
                i as nat,
            );
            assert(sibling_names.deep_view().len() == sibling_names.len());
        }
        i += 1;
    }
}

/// How a destination conflict ends.
pub enum ConflictDecision {
    /// The destination is free: restore straight to it.
    Proceed,
    /// Leave the occupant and the trashed item both untouched.
    SkipItem,
    /// Remove the occupant first (a symlink is unlinked, never followed),
    /// then restore.
    Overwrite,
    /// Restore to this fresh sibling path instead; the occupant stays.
    RenameTo(Vec<u8>),
}

/// `overwrite`, the first conflict choice.
pub open spec fn overwrite_word() -> Seq<u8> {
    seq![111u8, 118u8, 101u8, 114u8, 119u8, 114u8, 105u8, 116u8, 101u8]
}

/// `skip`, the second (and default) conflict choice.
pub open spec fn skip_word() -> Seq<u8> {
    seq![115u8, 107u8, 105u8, 112u8]
}

/// The choices offered for an occupied destination in a terminal, and the
/// default index (skip): overwrite, skip, and the fresh rename path the
/// rename choice would use. Nothing is offered where nothing is asked: the
/// destination is free, or there is no terminal.
pub fn conflict_question(
    occupied: bool,
    is_tty: bool,
    dest: &[u8],
    sibling_names: &Vec<Vec<u8>>,
) -> (r: Option<(Vec<Vec<u8>>, usize)>)
    requires
        sibling_names.len() < usize::MAX,
    ensures
        r is Some <==> (occupied && is_tty),
        r matches Some(q) ==> {
            &&& q.0@.len() == 3
            &&& q.0@[0]@ == overwrite_word()
            &&& q.0@[1]@ == skip_word()
            &&& rename_pick(dest@, sibling_names.deep_view(), q.0@[2]@)
            &&& q.1 == 1
        },
{
    if !occupied || !is_tty {
        return None;
    }
    let rename_dest = generate_rename_path(dest, sibling_names);
    let mut options: Vec<Vec<u8>> = Vec::new();
    let mut overwrite_w: Vec<u8> = Vec::new();
    overwrite_w.push(111);
    overwrite_w.push(118);
    overwrite_w.push(101);
    overwrite_w.push(114);
    overwrite_w.push(119);
    overwrite_w.push(114);
    overwrite_w.push(105);
    overwrite_w.push(116);
    overwrite_w.push(101);
    proof {
        assert(overwrite_w@ =~= overwrite_word());
    }
    options.push(overwrite_w);
    let mut skip_w: Vec<u8> = Vec::new();
    skip_w.push(115);
    skip_w.push(107);
    skip_w.push(105);
    skip_w.push(112);
    proof {
        assert(skip_w@ =~= skip_word());
    }
    options.push(skip_w);
    options.push(rename_dest);
    Some((options, 1))
}

/// Resolves one restore destination. A free destination proceeds. Without a
/// terminal an occupied one is skipped — scripted runs never overwrite
/// silently. With one, `choice` is the user's pick among the choices
/// `conflict_question` offered, and it decides exactly: the first choice
/// overwrites, the second skips, and any other renames to the fresh
/// non-colliding sibling.
pub fn resolve_conflict(
    occupied: bool,
    is_tty: bool,
    dest: &[u8],
    sibling_names: &Vec<Vec<u8>>,
    choice: Option<usize>,
) -> (r: ConflictDecision)
    requires
        sibling_names.len() < usize::MAX,
        (occupied && is_tty) ==> choice is Some,
    ensures
        !occupied ==> r is Proceed,
        occupied && !is_tty ==> r is SkipItem,
        occupied && is_tty ==> (choice matches Some(c) && (if c == 0 {
            r is Overwrite
        } else if c == 1 {
            r is SkipItem
        } else {
            r matches ConflictDecision::RenameTo(p) && rename_pick(
                dest@,
                sibling_names.deep_view(),
                p@,
            )
        })),
{
    if !occupied {
        return ConflictDecision::Proceed;
    }
    if !is_tty {
        return ConflictDecision::SkipItem;
    }
    match choice {
        Some(c) => {
            if c == 0 {
                ConflictDecision::Overwrite
            } else if c == 1 {
                ConflictDecision::SkipItem
            } else {
                ConflictDecision::RenameTo(generate_rename_path(dest, sibling_names))
            }
        },
        None => {
            proof {
                assert(false);
            }
            ConflictDecision::SkipItem
        },
    }
}

/// The fresh rename path for a destination is unique: any two values that
/// fit its description (a candidate whose file name is free while every
/// earlier candidate's is taken) are the same path, so the path offered by
/// `conflict_question` is the one `resolve_conflict` renames to.
pub proof fn lemma_rename_pick_unique(dest: Seq<u8>, sibs: Seq<Seq<u8>>, a: Seq<u8>, b: Seq<u8>)
    requires
        rename_pick(dest, sibs, a),
        rename_pick(dest, sibs, b),
    ensures
        a == b,
{
    let name = base_name_of(dest);
    let ia = choose|i: nat|
        1 <= i && a == dir_prefix_of(dest) + rename_name(name, i) && !sibs.contains(
            rename_name(name, i),
        ) && (forall|j: nat| 1 <= j < i ==> sibs.contains(#[trigger] rename_name(name, j)));
    let ib = choose|i: nat|
        1 <= i && b == dir_prefix_of(dest) + rename_name(name, i) && !sibs.contains(
            rename_name(name, i),
        ) && (forall|j: nat| 1 <= j < i ==> sibs.contains(#[trigger] rename_name(name, j)));
    if ia < ib {
        assert(sibs.contains(rename_name(name, ia)));
    } else if ib < ia {
        assert(sibs.contains(rename_name(name, ib)));
    }
}

} // verus!
