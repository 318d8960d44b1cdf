//! The metadata record kept beside each trashed item.
//!
//! A record is line-oriented text: a `[Trash Info]` header, `Path=` with the
//! item's original absolute path, optionally `TrashPath=` with the item's
//! location inside a platform trash root (side-channel records only), and
//! `DeletionDate=` with the local deletion time. Parsing is lenient: unknown
//! lines are ignored, later fields win, a malformed date is dropped, and only
//! a missing `Path=` (or `TrashPath=` for side-channel records) makes the
//! whole record unusable.

use vstd::prelude::*;

use crate::bytes::{is_prefix, matches_at_exec, push_all, sub_vec};
use crate::datetime::{dt_bytes, dt_of_bytes, DateTime, format_datetime, lemma_dt_bytes_injective};
use crate::lines::{find_nl, split_lines, strip_cr};

verus! {

/// A parsed record from the managed holding area's info store.
#[derive(Debug, Clone)]
pub struct InfoRecord {
    /// The absolute path the item had before it was trashed.
    pub original_path: Vec<u8>,
    /// When the item was trashed, if the record said so legibly.
    pub deleted_at: Option<DateTime>,
}

/// A parsed side-channel record for an item in a platform trash root.
#[derive(Debug, Clone)]
pub struct SideChannelRecord {
    /// The absolute path the item had before it was trashed.
    pub original_path: Vec<u8>,
    /// Where the item sits inside the platform trash root.
    pub trash_path: Vec<u8>,
    /// When the item was trashed, if the record said so legibly.
    pub deleted_at: Option<DateTime>,
}

/// `[Trash Info]`
pub open spec fn header_tag() -> Seq<u8> {
    seq![91u8, 84u8, 114u8, 97u8, 115u8, 104u8, 32u8, 73u8, 110u8, 102u8, 111u8, 93u8]
}

/// `Path=`
pub open spec fn path_tag() -> Seq<u8> {
    seq![80u8, 97u8, 116u8, 104u8, 61u8]
}

/// `TrashPath=`
pub open spec fn trash_path_tag() -> Seq<u8> {
    seq![84u8, 114u8, 97u8, 115u8, 104u8, 80u8, 97u8, 116u8, 104u8, 61u8]
}

/// `DeletionDate=`
pub open spec fn date_tag() -> Seq<u8> {
    seq![68u8, 101u8, 108u8, 101u8, 116u8, 105u8, 111u8, 110u8, 68u8, 97u8, 116u8, 101u8, 61u8]
}

fn header_tag_v() -> (r: Vec<u8>)
    ensures
        r@ == header_tag(),
{
    let mut v: Vec<u8> = Vec::new();
    v.push(91);
    v.push(84);
    v.push(114);
    v.push(97);
    v.push(115);
    v.push(104);
    v.push(32);
    v.push(73);
    v.push(110);
    v.push(102);
    v.push(111);
    v.push(93);
    proof {
        assert(v@ =~= header_tag());
    }
    v
}

fn path_tag_v() -> (r: Vec<u8>)
    ensures
        r@ == path_tag(),
{
    let mut v: Vec<u8> = Vec::new();
    v.push(80);
    v.push(97);
    v.push(116);
    v.push(104);
    v.push(61);
    proof {
        assert(v@ =~= path_tag());
    }
    v
}

fn trash_path_tag_v() -> (r: Vec<u8>)
    ensures
        r@ == trash_path_tag(),
{
    let mut v: Vec<u8> = Vec::new();
    v.push(84);
    v.push(114);
    v.push(97);
    v.push(115);
    v.push(104);
    v.push(80);
    v.push(97);
    v.push(116);
    v.push(104);
    v.push(61);
    proof {
        assert(v@ =~= trash_path_tag());
    }
    v
}

fn date_tag_v() -> (r: Vec<u8>)
    ensures
        r@ == date_tag(),
{
    let mut v: Vec<u8> = Vec::new();
    v.push(68);
    v.push(101);
    v.push(108);
    v.push(101);
    v.push(116);
    v.push(105);
    v.push(111);
    v.push(110);
    v.push(68);
    v.push(97);
    v.push(116);
    v.push(101);
    v.push(61);
    proof {
        assert(v@ =~= date_tag());
    }
    v
}

/// The fields a record's lines mention: path, trash path, deletion time.
pub type RawFields = (Option<Seq<u8>>, Option<Seq<u8>>, Option<DateTime>);

/// How one line updates the fields read so far.
pub open spec fn apply_line(st: RawFields, l: Seq<u8>) -> RawFields {
    if is_prefix(l, path_tag()) {
        (Some(l.skip(path_tag().len() as int)), st.1, st.2)
    } else if is_prefix(l, trash_path_tag()) {
        (st.0, Some(l.skip(trash_path_tag().len() as int)), st.2)
    } else if is_prefix(l, date_tag()) {
        match dt_of_bytes(l.skip(date_tag().len() as int)) {
            Some(d) => (st.0, st.1, Some(d)),
            None => st,
        }
    } else {
        st
    }
}

pub open spec fn fold_lines(st: RawFields, ls: Seq<Seq<u8>>) -> RawFields
    decreases ls.len(),
{
    if ls.len() == 0 {
        st
    } else {
        fold_lines(apply_line(st, ls[0]), ls.skip(1))
    }
}

/// The fields that record text `s` carries.
pub open spec fn raw_fields_of(s: Seq<u8>) -> RawFields {
    fold_lines((None, None, None), split_lines(s))
}

/// What a managed info record means: its path and deletion time, or nothing
/// if the record never names a path.
pub open spec fn parsed_info(s: Seq<u8>) -> Option<(Seq<u8>, Option<DateTime>)> {
    match raw_fields_of(s).0 {
        Some(p) => Some((p, raw_fields_of(s).2)),
        None => None,
    }
}

/// What a side-channel record means: original path, trash-root path and
/// deletion time, or nothing if either path is missing.
pub open spec fn parsed_side(s: Seq<u8>) -> Option<(Seq<u8>, Seq<u8>, Option<DateTime>)> {
    match (raw_fields_of(s).0, raw_fields_of(s).1) {
        (Some(p), Some(t)) => Some((p, t, raw_fields_of(s).2)),
        _ => None,
    }
}

pub open spec fn opt_view(o: Option<Vec<u8>>) -> Option<Seq<u8>> {
    match o {
        Some(v) => Some(v@),
        None => None,
    }
}

/// If the line carries `tag`, hand back what follows it.
fn line_tag_rest(s: &[u8], start: usize, end: usize, tag: &[u8]) -> (r: Option<Vec<u8>>)
    requires
        start <= end <= s.len(),
        tag.len() >= 1,
    ensures
        match r {
            Some(v) => is_prefix(s@.subrange(start as int, end as int), tag@) && v@ == s@.subrange(
                start as int,
                end as int,
            ).skip(tag@.len() as int),
            None => !is_prefix(s@.subrange(start as int, end as int), tag@),
        },
{
    let ghost line = s@.subrange(start as int, end as int);
    if end - start < tag.len() {
        return None;
    }
    proof {
        assert(line.subrange(0, tag@.len() as int) =~= s@.subrange(
            start as int,
            start + tag@.len(),
        ));
    }
    if matches_at_exec(s, tag, start) {
        let v = sub_vec(s, start + tag.len(), end);
        proof {
            assert(v@ =~= line.skip(tag@.len() as int));
        }
        Some(v)
    } else {
        None
    }
}

/// Reads every line of `s` and accumulates the fields it names.
fn parse_fields(s: &[u8]) -> (r: (Option<Vec<u8>>, Option<Vec<u8>>, Option<DateTime>))
    ensures
        (opt_view(r.0), opt_view(r.1), r.2) == raw_fields_of(s@),
{
    let mut path: Option<Vec<u8>> = None;
    let mut tpath: Option<Vec<u8>> = None;
    let mut date: Option<DateTime> = None;
    let mut start: usize = 0;
    proof {
        assert(s@.skip(0) =~= s@);
    }
    loop
        invariant
            start <= s.len(),
            fold_lines((opt_view(path), opt_view(tpath), date), split_lines(s@.skip(start as int)))
                == raw_fields_of(s@),
        ensures
            (opt_view(path), opt_view(tpath), date) == raw_fields_of(s@),
        decreases s.len() - start,
    {
        if start == s.len() {
            proof {
                assert(s@.skip(start as int) =~= Seq::<u8>::empty());
            }
            break;
        }
        let ghost old_state = (opt_view(path), opt_view(tpath), date);
        let (line_end, next_start) = match find_nl(s, start) {
            Some(k) => (k, k + 1),
            None => (s.len(), s.len()),
        };
        proof {
            let l_full = s@.subrange(start as int, line_end as int);
            assert(forall|j: int| 0 <= j < l_full.len() ==> l_full[j] != 10u8);
            if line_end < s.len() {
                let rest = s@.skip(line_end + 1);
                assert(s@.skip(start as int) =~= l_full + seq![10u8] + rest);
                crate::lines::lemma_split_lines_cons(l_full, rest);
            } else {
                assert(s@.skip(start as int) =~= l_full);
                crate::lines::lemma_split_lines_last(l_full);
                assert(s@.skip(s@.len() as int) =~= Seq::<u8>::empty());
            }
            let ls = split_lines(s@.skip(start as int));
            assert(ls == seq![strip_cr(l_full)] + split_lines(s@.skip(next_start as int)));
            assert(ls[0] == strip_cr(l_full));
            assert(ls.skip(1) =~= split_lines(s@.skip(next_start as int)));
        }
        // Drop a trailing carriage return from the line.
        let stripped_end = if line_end > start && s[line_end - 1] == 13 {
            line_end - 1
        } else {
            line_end
        };
        proof {
            assert(strip_cr(s@.subrange(start as int, line_end as int)) =~= s@.subrange(
                start as int,
                stripped_end as int,
            ));
        }
        let ghost line = s@.subrange(start as int, stripped_end as int);
        let ptag = path_tag_v();
        let ttag = trash_path_tag_v();
        let dtag = date_tag_v();
        if let Some(v) = line_tag_rest(s, start, stripped_end, ptag.as_slice()) {
            path = Some(v);
        } else if let Some(v) = line_tag_rest(s, start, stripped_end, ttag.as_slice()) {
            tpath = Some(v);
        } else if let Some(v) = line_tag_rest(s, start, stripped_end, dtag.as_slice()) {
            if let Some(d) = crate::datetime::parse_datetime(v.as_slice()) {
                date = Some(d);
            }
        }
        proof {
            assert((opt_view(path), opt_view(tpath), date) == apply_line(old_state, line));
        }
        start = next_start;
    }
    (path, tpath, date)
}

/// Reads a managed info record: the original path is required, the deletion
/// time optional, anything else tolerated.
pub fn parse_trashinfo(s: &[u8]) -> (r: Option<InfoRecord>)
    ensures
        match r {
            Some(rec) => parsed_info(s@) == Some((rec.original_path@, rec.deleted_at)),
            None => parsed_info(s@) is None,
        },
{
    let (path, _tpath, date) = parse_fields(s);
    match path {
        Some(p) => Some(InfoRecord { original_path: p, deleted_at: date }),
        None => None,
    }
}

/// Reads a side-channel record: both paths are required.
pub fn parse_restore_meta(s: &[u8]) -> (r: Option<SideChannelRecord>)
    ensures
        match r {
            Some(rec) => parsed_side(s@) == Some(
                (rec.original_path@, rec.trash_path@, rec.deleted_at),
            ),
            None => parsed_side(s@) is None,
        },
{
    let (path, tpath, date) = parse_fields(s);
    match (path, tpath) {
        (Some(p), Some(t)) => Some(
            SideChannelRecord { original_path: p, trash_path: t, deleted_at: date },
        ),
        _ => None,
    }
}

/// The text of a managed info record for `path`, deleted at `dt`.
pub open spec fn info_bytes(path: Seq<u8>, dt: DateTime) -> Seq<u8> {
    header_tag() + seq![10u8] + path_tag() + path + seq![10u8] + date_tag() + dt_bytes(dt) + seq![
        10u8,
    ]
}

/// The text of a side-channel record.
pub open spec fn side_bytes(path: Seq<u8>, trash_path: Seq<u8>, dt: DateTime) -> Seq<u8> {
    header_tag() + seq![10u8] + path_tag() + path + seq![10u8] + trash_path_tag() + trash_path
        + seq![10u8] + date_tag() + dt_bytes(dt) + seq![10u8]
}

/// A path is writable in a record: no newline inside, no carriage return at
/// the end. Every absolute Unix path satisfies this unless a file name itself
/// contains such control bytes.
pub open spec fn record_safe(p: Seq<u8>) -> bool {
    &&& forall|j: int| 0 <= j < p.len() ==> p[j] != 10u8
    &&& (p.len() == 0 || p.last() != 13u8)
}

proof fn lemma_header_line(st: RawFields)
    ensures
        apply_line(st, header_tag()) == st,
{
    let h = header_tag();
    assert(!is_prefix(h, path_tag())) by {
        assert(is_prefix(h, path_tag()) ==> h.subrange(0, 5)[0] == path_tag()[0]);
    }
    assert(!is_prefix(h, trash_path_tag())) by {
        assert(is_prefix(h, trash_path_tag()) ==> h.subrange(0, 10)[0] == trash_path_tag()[0]);
    }
    assert(!is_prefix(h, date_tag())) by {
        assert(is_prefix(h, date_tag()) ==> h.subrange(0, 13)[0] == date_tag()[0]);
    }
}

proof fn lemma_path_line(st: RawFields, p: Seq<u8>)
    ensures
        apply_line(st, path_tag() + p) == (Some(p), st.1, st.2),
{
    let l = path_tag() + p;
    assert(is_prefix(l, path_tag())) by {
        assert(l.subrange(0, 5) =~= path_tag());
    }
    assert(l.skip(5) =~= p);
}

proof fn lemma_trash_path_line(st: RawFields, p: Seq<u8>)
    ensures
        apply_line(st, trash_path_tag() + p) == (st.0, Some(p), st.2),
{
    let l = trash_path_tag() + p;
    assert(!is_prefix(l, path_tag())) by {
        assert(is_prefix(l, path_tag()) ==> l.subrange(0, 5)[0] == path_tag()[0]);
        assert(l[0] == 84u8);
    }
    assert(is_prefix(l, trash_path_tag())) by {
        assert(l.subrange(0, 10) =~= trash_path_tag());
    }
    assert(l.skip(10) =~= p);
}

proof fn lemma_date_line(st: RawFields, dt: DateTime)
    requires
        dt.wf(),
    ensures
        apply_line(st, date_tag() + dt_bytes(dt)) == (st.0, st.1, Some(dt)),
{
    let l = date_tag() + dt_bytes(dt);
    assert(l[0] == 68u8);
    assert(!is_prefix(l, path_tag())) by {
        assert(is_prefix(l, path_tag()) ==> l.subrange(0, 5)[0] == path_tag()[0]);
    }
    assert(!is_prefix(l, trash_path_tag())) by {
        assert(is_prefix(l, trash_path_tag()) ==> l.subrange(0, 10)[0] == trash_path_tag()[0]);
    }
    assert(is_prefix(l, date_tag())) by {
        assert(l.subrange(0, 13) =~= date_tag());
    }
    assert(l.skip(13) =~= dt_bytes(dt));
    let rest = dt_bytes(dt);
    assert(dt_of_bytes(rest) == Some(dt)) by {
        assert(dt.wf() && crate::datetime::dt_bytes_sep(dt, 84u8) == rest);
        let w = choose|x: DateTime| x.wf() && crate::datetime::dt_bytes_sep(x, 84u8) == rest;
        lemma_dt_bytes_injective(dt, w, 84u8);
    }
}

proof fn lemma_tag_line_text(tag: Seq<u8>, p: Seq<u8>)
    requires
        forall|j: int| 0 <= j < tag.len() ==> tag[j] != 10u8 && tag[j] != 13u8,
        tag.len() > 0,
        record_safe(p),
    ensures
        forall|j: int| 0 <= j < (tag + p).len() ==> (tag + p)[j] != 10u8,
        strip_cr(tag + p) == tag + p,
{
    let l = tag + p;
    if p.len() == 0 {
        assert(l.last() == tag.last());
    } else {
        assert(l.last() == p.last());
    }
}

/// Round trip for managed records: what `trash` writes, listing reads back
/// as exactly the recorded path and deletion time.
pub proof fn lemma_info_round_trip(path: Seq<u8>, dt: DateTime)
    requires
        dt.wf(),
        record_safe(path),
    ensures
        parsed_info(info_bytes(path, dt)) == Some((path, Some(dt))),
{
    let l1 = header_tag();
    let l2 = path_tag() + path;
    let l3 = date_tag() + dt_bytes(dt);
    let s = info_bytes(path, dt);
    crate::datetime::lemma_dt_bytes_text(dt, 84u8);
    assert(forall|j: int| 0 <= j < l1.len() ==> l1[j] != 10u8 && l1[j] != 13u8);
    lemma_tag_line_text(path_tag(), path);
    lemma_tag_line_text(date_tag(), dt_bytes(dt));
    let rest2 = l3 + seq![10u8];
    let rest1 = l2 + seq![10u8] + rest2;
    assert(s =~= l1 + seq![10u8] + rest1);
    crate::lines::lemma_split_lines_cons(l1, rest1);
    crate::lines::lemma_split_lines_cons(l2, rest2);
    assert(rest2 =~= l3 + seq![10u8] + Seq::<u8>::empty());
    crate::lines::lemma_split_lines_cons(l3, Seq::<u8>::empty());
    assert(strip_cr(l1) == l1);
    let ls = split_lines(s);
    assert(ls == seq![l1] + (seq![l2] + (seq![l3] + Seq::<Seq<u8>>::empty())));
    assert(ls =~= seq![l1, l2, l3]);
    let st0: RawFields = (None, None, None);
    lemma_header_line(st0);
    let st1 = apply_line(st0, l1);
    lemma_path_line(st1, path);
    let st2 = apply_line(st1, l2);
    lemma_date_line(st2, dt);
    let st3 = apply_line(st2, l3);
    assert(ls.skip(1) =~= seq![l2, l3]);
    assert(seq![l2, l3].skip(1) =~= seq![l3]);
    assert(seq![l3].skip(1) =~= Seq::<Seq<u8>>::empty());
    assert(fold_lines(st0, ls) == fold_lines(st1, seq![l2, l3]));
    assert(fold_lines(st1, seq![l2, l3]) == fold_lines(st2, seq![l3]));
    assert(fold_lines(st2, seq![l3]) == fold_lines(st3, Seq::<Seq<u8>>::empty()));
    assert(fold_lines(st3, Seq::<Seq<u8>>::empty()) == st3);
    assert(raw_fields_of(s) == st3);
    assert(st3 == (Some(path), st2.1, Some(dt)));
}

/// Round trip for side-channel records.
#[verifier::rlimit(50)]
pub proof fn lemma_side_round_trip(path: Seq<u8>, trash_path: Seq<u8>, dt: DateTime)
    requires
        dt.wf(),
        record_safe(path),
        record_safe(trash_path),
    ensures
        parsed_side(side_bytes(path, trash_path, dt)) == Some((path, trash_path, Some(dt))),
{
    let l1 = header_tag();
    let l2 = path_tag() + path;
    let l3 = trash_path_tag() + trash_path;
    let l4 = date_tag() + dt_bytes(dt);
    let s = side_bytes(path, trash_path, dt);
    crate::datetime::lemma_dt_bytes_text(dt, 84u8);
    assert(forall|j: int| 0 <= j < l1.len() ==> l1[j] != 10u8 && l1[j] != 13u8);
    lemma_tag_line_text(path_tag(), path);
    lemma_tag_line_text(trash_path_tag(), trash_path);
    lemma_tag_line_text(date_tag(), dt_bytes(dt));
    let rest3 = l4 + seq![10u8];
    let rest2 = l3 + seq![10u8] + rest3;
    let rest1 = l2 + seq![10u8] + rest2;
    assert(s =~= l1 + seq![10u8] + rest1);
    crate::lines::lemma_split_lines_cons(l1, rest1);
    crate::lines::lemma_split_lines_cons(l2, rest2);
    crate::lines::lemma_split_lines_cons(l3, rest3);
    assert(rest3 =~= l4 + seq![10u8] + Seq::<u8>::empty());
    crate::lines::lemma_split_lines_cons(l4, Seq::<u8>::empty());
    assert(strip_cr(l1) == l1);
    let ls = split_lines(s);
    assert(ls =~= seq![l1, l2, l3, l4]);
    let st0: RawFields = (None, None, None);
    lemma_header_line(st0);
    let st1 = apply_line(st0, l1);
    lemma_path_line(st1, path);
    let st2 = apply_line(st1, l2);
    lemma_trash_path_line(st2, trash_path);
    let st3 = apply_line(st2, l3);
    lemma_date_line(st3, dt);
    let st4 = apply_line(st3, l4);
    assert(ls.skip(1) =~= seq![l2, l3, l4]);
    assert(seq![l2, l3, l4].skip(1) =~= seq![l3, l4]);
    assert(seq![l3, l4].skip(1) =~= seq![l4]);
    assert(seq![l4].skip(1) =~= Seq::<Seq<u8>>::empty());
    assert(fold_lines(st0, ls) == fold_lines(st1, seq![l2, l3, l4]));
    assert(fold_lines(st1, seq![l2, l3, l4]) == fold_lines(st2, seq![l3, l4]));
    assert(fold_lines(st2, seq![l3, l4]) == fold_lines(st3, seq![l4]));
    assert(fold_lines(st3, seq![l4]) == fold_lines(st4, Seq::<Seq<u8>>::empty()));
    assert(fold_lines(st4, Seq::<Seq<u8>>::empty()) == st4);
    assert(raw_fields_of(s) == st4);
}

/// Writes the managed info record text.
pub fn format_trashinfo(path: &[u8], dt: &DateTime) -> (r: Vec<u8>)
    requires
        dt.wf(),
    ensures
        r@ == info_bytes(path@, *dt),
{
    let mut r = header_tag_v();
    r.push(10);
    let ptag = path_tag_v();
    push_all(&mut r, ptag.as_slice());
    push_all(&mut r, path);
    r.push(10);
    let dtag = date_tag_v();
    push_all(&mut r, dtag.as_slice());
    let dtb = format_datetime(dt);
    push_all(&mut r, dtb.as_slice());
    r.push(10);
    proof {
        assert(r@ =~= info_bytes(path@, *dt));
    }
    r
}

/// Writes the side-channel record text.
pub fn format_restore_meta(path: &[u8], trash_path: &[u8], dt: &DateTime) -> (r: Vec<u8>)
    requires
        dt.wf(),
    ensures
        r@ == side_bytes(path@, trash_path@, *dt),
{
    let mut r = header_tag_v();
    r.push(10);
    let ptag = path_tag_v();
    push_all(&mut r, ptag.as_slice());
    push_all(&mut r, path);
    r.push(10);
    let ttag = trash_path_tag_v();
    push_all(&mut r, ttag.as_slice());
    push_all(&mut r, trash_path);
    r.push(10);
    let dtag = date_tag_v();
    push_all(&mut r, dtag.as_slice());
    let dtb = format_datetime(dt);
    push_all(&mut r, dtb.as_slice());
    r.push(10);
    proof {
        assert(r@ =~= side_bytes(path@, trash_path@, *dt));
    }
    r
}

} // verus!
