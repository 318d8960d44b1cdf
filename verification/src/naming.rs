//! Collision-safe names for the holding area.
//!
//! A trashed payload keeps its original file name when that name is free;
//! otherwise a counter goes in front of the extension (`name.1.ext`,
//! `name.2.ext`, ...), probing upward until a free name is found. Numbered
//! candidates are pairwise distinct, so the probe is bounded by the number of
//! names already taken, and the name found never collides with any of them.

use vstd::prelude::*;

use crate::bytes::sub_vec;
use crate::digits::{dec_rep, lemma_dec_rep_injective, lemma_dec_rep_len, push_dec};

verus! {

/// The position of the last `.` in `name` other than a leading one, or -1.
/// A leading dot marks a hidden file, not an extension.
pub open spec fn last_dot(name: Seq<u8>) -> int
    decreases name.len(),
{
    if name.len() <= 1 {
        -1
    } else if name.last() == 46u8 {
        name.len() - 1
    } else {
        last_dot(name.drop_last())
    }
}

/// The name without its extension.
pub open spec fn stem_of(name: Seq<u8>) -> Seq<u8> {
    if last_dot(name) == -1 {
        name
    } else {
        name.take(last_dot(name))
    }
}

/// The extension, if the name has one.
pub open spec fn ext_of(name: Seq<u8>) -> Option<Seq<u8>> {
    if last_dot(name) == -1 {
        None
    } else {
        Some(name.skip(last_dot(name) + 1))
    }
}

/// A candidate from stem, counter and extension.
pub open spec fn build_candidate(stem: Seq<u8>, ext: Option<Seq<u8>>, i: nat) -> Seq<u8> {
    match ext {
        Some(e) => stem + seq![46u8] + dec_rep(i) + seq![46u8] + e,
        None => stem + seq![46u8] + dec_rep(i),
    }
}

/// The `i`-th probe name for `name`: the counter goes before the extension.
pub open spec fn numbered_candidate(name: Seq<u8>, i: nat) -> Seq<u8> {
    build_candidate(stem_of(name), ext_of(name), i)
}

proof fn lemma_last_dot_at(s: Seq<u8>, k: int)
    requires
        1 <= k < s.len(),
        s[k] == 46u8,
        forall|j: int| k < j < s.len() ==> s[j] != 46u8,
    ensures
        last_dot(s) == k,
    decreases s.len(),
{
    if k < s.len() - 1 {
        assert(s.last() != 46u8);
        assert(forall|j: int| 0 <= j < s.len() - 1 ==> s.drop_last()[j] == s[j]);
        lemma_last_dot_at(s.drop_last(), k);
    }
}

proof fn lemma_last_dot_none(s: Seq<u8>)
    requires
        forall|j: int| 1 <= j < s.len() ==> s[j] != 46u8,
    ensures
        last_dot(s) == -1,
    decreases s.len(),
{
    if s.len() > 1 {
        assert(forall|j: int| 0 <= j < s.len() - 1 ==> s.drop_last()[j] == s[j]);
        lemma_last_dot_none(s.drop_last());
    }
}

/// Splits a file name into stem and extension.
pub fn split_name(name: &[u8]) -> (r: (Vec<u8>, Option<Vec<u8>>))
    ensures
        r.0@ == stem_of(name@),
        crate::trashinfo::opt_view(r.1) == ext_of(name@),
{
    let mut k = name.len();
    while k > 1
        invariant
            k <= name.len(),
            forall|j: int| k <= j < name.len() ==> name@[j] != 46u8,
        decreases k,
    {
        if name[k - 1] == 46 {
            proof {
                lemma_last_dot_at(name@, k - 1);
            }
            let stem = sub_vec(name, 0, k - 1);
            let ext = sub_vec(name, k, name.len());
            proof {
                assert(stem@ =~= stem_of(name@));
                assert(ext@ =~= name@.skip(k as int));
            }
            return (stem, Some(ext));
        }
        k -= 1;
    }
    proof {
        lemma_last_dot_none(name@);
    }
    let stem = sub_vec(name, 0, name.len());
    proof {
        assert(stem@ =~= name@);
    }
    (stem, None)
}

/// Renders the `i`-th candidate for a split name.
fn render_candidate(stem: &[u8], ext: &Option<Vec<u8>>, i: u64) -> (r: Vec<u8>)
    ensures
        r@ == build_candidate(stem@, crate::trashinfo::opt_view(*ext), i as nat),
{
    let mut r = sub_vec(stem, 0, stem.len());
    proof {
        assert(r@ =~= stem@);
    }
    r.push(46);
    push_dec(&mut r, i);
    match ext {
        Some(e) => {
            r.push(46);
            crate::bytes::push_all(&mut r, e.as_slice());
            proof {
                assert(r@ =~= build_candidate(stem@, crate::trashinfo::opt_view(*ext), i as nat));
            }
        },
        None => {
            proof {
                assert(r@ =~= build_candidate(stem@, crate::trashinfo::opt_view(*ext), i as nat));
            }
        },
    }
    r
}

/// Different counters give different candidate names.
pub proof fn lemma_candidate_distinct(name: Seq<u8>, i: nat, j: nat)
    requires
        i != j,
    ensures
        numbered_candidate(name, i) != numbered_candidate(name, j),
{
    let stem = stem_of(name);
    let ci = numbered_candidate(name, i);
    let cj = numbered_candidate(name, j);
    if ci == cj {
        lemma_dec_rep_len(i);
        lemma_dec_rep_len(j);
        let di = dec_rep(i).len() as int;
        let dj = dec_rep(j).len() as int;
        assert(ci.len() == cj.len());
        assert(di == dj);
        assert(ci.subrange(stem.len() as int + 1, stem.len() + 1 + di) =~= dec_rep(i));
        assert(cj.subrange(stem.len() as int + 1, stem.len() + 1 + dj) =~= dec_rep(j));
        lemma_dec_rep_injective(i, j);
    }
}

/// The position of the last `/` in `p`, or -1.
pub open spec fn last_slash(p: Seq<u8>) -> int
    decreases p.len(),
{
    if p.len() == 0 {
        -1
    } else if p.last() == 47u8 {
        p.len() - 1
    } else {
        last_slash(p.drop_last())
    }
}

/// The byte suffix after the last `/`: the file name a path ends in.
pub open spec fn base_name_of(p: Seq<u8>) -> Seq<u8> {
    if last_slash(p) == -1 {
        p
    } else {
        p.skip(last_slash(p) + 1)
    }
}

proof fn lemma_last_slash_at(s: Seq<u8>, k: int)
    requires
        0 <= k < s.len(),
        s[k] == 47u8,
        forall|j: int| k < j < s.len() ==> s[j] != 47u8,
    ensures
        last_slash(s) == k,
    decreases s.len(),
{
    if k < s.len() - 1 {
        assert(s.last() != 47u8);
        assert(forall|j: int| 0 <= j < s.len() - 1 ==> s.drop_last()[j] == s[j]);
        lemma_last_slash_at(s.drop_last(), k);
    }
}

proof fn lemma_last_slash_none(s: Seq<u8>)
    requires
        forall|j: int| 0 <= j < s.len() ==> s[j] != 47u8,
    ensures
        last_slash(s) == -1,
    decreases s.len(),
{
    if s.len() > 0 {
        assert(forall|j: int| 0 <= j < s.len() - 1 ==> s.drop_last()[j] == s[j]);
        lemma_last_slash_none(s.drop_last());
    }
}

/// Everything up to and including the last `/`, empty if there is none.
pub open spec fn dir_prefix_of(p: Seq<u8>) -> Seq<u8> {
    p.take(last_slash(p) + 1)
}

/// Splits a path into its directory prefix (slash included) and file name.
pub fn split_path(p: &[u8]) -> (r: (Vec<u8>, Vec<u8>))
    ensures
        r.0@ == dir_prefix_of(p@),
        r.1@ == base_name_of(p@),
{
    let mut k = p.len();
    while k > 0
        invariant
            k <= p.len(),
            forall|j: int| k <= j < p.len() ==> p@[j] != 47u8,
        decreases k,
    {
        if p[k - 1] == 47 {
            proof {
                lemma_last_slash_at(p@, k - 1);
            }
            let pre = sub_vec(p, 0, k);
            let name = sub_vec(p, k, p.len());
            proof {
                assert(pre@ =~= dir_prefix_of(p@));
                assert(name@ =~= base_name_of(p@));
            }
            return (pre, name);
        }
        k -= 1;
    }
    proof {
        lemma_last_slash_none(p@);
    }
    let pre = sub_vec(p, 0, 0);
    let name = sub_vec(p, 0, p.len());
    proof {
        assert(pre@ =~= dir_prefix_of(p@));
        assert(name@ =~= p@);
    }
    (pre, name)
}

/// An injective family of candidate names cannot all be taken: if every
/// counter in `1..=i` names a taken name, the taken list holds at least `i`
/// entries.
pub proof fn lemma_probe_bound_injective(f: spec_fn(nat) -> Seq<u8>, ex: Seq<Seq<u8>>, i: nat)
    requires
        forall|p: nat, q: nat| p != q ==> #[trigger] f(p) != #[trigger] f(q),
        forall|j: nat| 1 <= j <= i ==> ex.contains(#[trigger] f(j)),
    ensures
        i <= ex.len(),
{
    broadcast use vstd::seq_lib::seq_to_set_is_finite;

    let cs = Seq::new(i, |k: int| f((k + 1) as nat));
    assert forall|p: int, q: int| 0 <= p < cs.len() && 0 <= q < cs.len() && p != q implies cs[p]
        != cs[q] by {
        assert(f((p + 1) as nat) != f((q + 1) as nat));
    }
    cs.unique_seq_to_set();
    assert forall|x: Seq<u8>| cs.to_set().contains(x) implies ex.to_set().contains(x) by {
        let k = choose|k: int| 0 <= k < cs.len() && cs[k] == x;
        assert(ex.contains(f((k + 1) as nat)));
    }
    ex.lemma_cardinality_of_set();
    vstd::set_lib::lemma_len_subset(cs.to_set(), ex.to_set());
}

/// Extracts the file name a path ends in.
pub fn base_name(p: &[u8]) -> (r: Vec<u8>)
    ensures
        r@ == base_name_of(p@),
{
    let mut k = p.len();
    while k > 0
        invariant
            k <= p.len(),
            forall|j: int| k <= j < p.len() ==> p@[j] != 47u8,
        decreases k,
    {
        if p[k - 1] == 47 {
            proof {
                lemma_last_slash_at(p@, k - 1);
            }
            let r = sub_vec(p, k, p.len());
            proof {
                assert(r@ =~= base_name_of(p@));
            }
            return r;
        }
        k -= 1;
    }
    proof {
        lemma_last_slash_none(p@);
    }
    let r = sub_vec(p, 0, p.len());
    proof {
        assert(r@ =~= p@);
    }
    r
}

/// Is `x` one of the names in `l`?
pub fn contains_name(l: &Vec<Vec<u8>>, x: &[u8]) -> (r: bool)
    ensures
        r == l.deep_view().contains(x@),
{
    let mut i: usize = 0;
    while i < l.len()
        invariant
            i <= l.len(),
            forall|j: int| 0 <= j < i ==> l.deep_view()[j] != x@,
        decreases l.len() - i,
    {
        proof {
            assert(l.deep_view()[i as int] =~= l@[i as int]@);
        }
        if crate::bytes::bytes_eq(l[i].as_slice(), x) {
            proof {
                assert(l.deep_view()[i as int] == x@);
            }
            return true;
        }
        i += 1;
    }
    proof {
        if l.deep_view().contains(x@) {
            let k = choose|k: int| 0 <= k < l.deep_view().len() && l.deep_view()[k] == x@;
            assert(l.deep_view()[k] == x@);
        }
    }
    false
}

/// The collision-safe stored name for `original` against the names already
/// taken: `original` itself when free, else the first free numbered
/// candidate. The result never collides with a taken name.
pub fn unique_name(original: &[u8], existing: &Vec<Vec<u8>>) -> (r: Vec<u8>)
    requires
        existing.len() < usize::MAX,
    ensures
        !existing.deep_view().contains(r@),
        !existing.deep_view().contains(original@) ==> r@ == original@,
        existing.deep_view().contains(original@) ==> exists|i: nat|
            1 <= i && r@ == numbered_candidate(original@, i) && (forall|j: nat|
                1 <= j < i ==> existing.deep_view().contains(
                    #[trigger] numbered_candidate(original@, j),
                )),
{
    if !contains_name(existing, original) {
        let r = sub_vec(original, 0, original.len());
        proof {
            assert(r@ =~= original@);
        }
        return r;
    }
    let (stem, ext) = split_name(original);
    let mut i: usize = 1;
    loop
        invariant
            existing.len() < usize::MAX,
            existing.deep_view().contains(original@),
            stem@ == stem_of(original@),
            crate::trashinfo::opt_view(ext) == ext_of(original@),
            1 <= i <= existing.len() + 1,
            forall|j: nat|
                1 <= j < i ==> existing.deep_view().contains(
                    #[trigger] numbered_candidate(original@, j),
                ),
        decreases existing.len() + 1 - i,
    {
        let c = render_candidate(stem.as_slice(), &ext, i as u64);
        if !contains_name(existing, c.as_slice()) {
            proof {
                assert(c@ == numbered_candidate(original@, i as nat));
            }
            return c;
        }
        proof {
            let fcl = |j: nat| numbered_candidate(original@, j);
            assert forall|p: nat, q: nat| p != q implies #[trigger] fcl(p) != #[trigger] fcl(
                q,
            ) by {
                lemma_candidate_distinct(original@, p, q);
            }
            assert forall|j: nat| 1 <= j <= i as nat implies existing.deep_view().contains(
                #[trigger] fcl(j),
            ) by {
                assert(existing.deep_view().contains(numbered_candidate(original@, j)));
            }
            lemma_probe_bound_injective(fcl, existing.deep_view(), i as nat);
            assert(existing.deep_view().len() == existing.len());
        }
        i += 1;
    }
}

} // verus!
