//! Byte-string helpers: equality, prefix tests and substring search.
//!
//! Paths and file names are byte strings here, so these operations carry the
//! listing filter and the record parser.

use vstd::prelude::*;

verus! {

/// `needle` occurs in `hay` starting at position `at`.
pub open spec fn matches_at(hay: Seq<u8>, needle: Seq<u8>, at: int) -> bool {
    &&& 0 <= at
    &&& at + needle.len() <= hay.len()
    &&& hay.subrange(at, at + needle.len()) == needle
}

/// `needle` occurs somewhere in `hay`.
pub open spec fn contains_bytes(hay: Seq<u8>, needle: Seq<u8>) -> bool {
    exists|at: int| matches_at(hay, needle, at)
}

/// A byte-string equality check, spelled out so contracts can speak of it.
pub fn bytes_eq(a: &[u8], b: &[u8]) -> (r: bool)
    ensures
        r == (a@ == b@),
{
    if a.len() != b.len() {
        return false;
    }
    let mut i: usize = 0;
    while i < a.len()
        invariant
            i <= a.len(),
            a.len() == b.len(),
            forall|j: int| 0 <= j < i ==> a@[j] == b@[j],
        decreases a.len() - i,
    {
        if a[i] != b[i] {
            return false;
        }
        i += 1;
    }
    proof {
        assert(a@ =~= b@);
    }
    true
}

/// Does `needle` occur in `hay` starting at `at`?
pub fn matches_at_exec(hay: &[u8], needle: &[u8], at: usize) -> (r: bool)
    requires
        at + needle.len() <= hay.len(),
    ensures
        r == matches_at(hay@, needle@, at as int),
{
    let mut i: usize = 0;
    while i < needle.len()
        invariant
            i <= needle.len(),
            at + needle.len() <= hay.len(),
            forall|j: int| 0 <= j < i ==> hay@[at + j] == needle@[j],
        decreases needle.len() - i,
    {
        if hay[at + i] != needle[i] {
            proof {
                assert(hay@.subrange(at as int, at + needle@.len())[i as int] != needle@[i as int]);
            }
            return false;
        }
        i += 1;
    }
    proof {
        assert(hay@.subrange(at as int, at + needle@.len()) =~= needle@);
    }
    true
}

/// Substring search: does `needle` occur anywhere in `hay`?
pub fn contains_sub(hay: &[u8], needle: &[u8]) -> (r: bool)
    ensures
        r == contains_bytes(hay@, needle@),
{
    if needle.len() > hay.len() {
        proof {
            assert(forall|at: int| !matches_at(hay@, needle@, at));
        }
        return false;
    }
    let end = hay.len() - needle.len();
    let mut at: usize = 0;
    loop
        invariant
            needle.len() <= hay.len(),
            end == hay.len() - needle.len(),
            at <= end,
            forall|k: int| 0 <= k < at ==> !matches_at(hay@, needle@, k),
        ensures
            forall|k: int| 0 <= k <= end ==> !matches_at(hay@, needle@, k),
        decreases end - at,
    {
        if matches_at_exec(hay, needle, at) {
            return true;
        }
        if at == end {
            break;
        }
        at += 1;
    }
    proof {
        assert(forall|k: int| k > end ==> !matches_at(hay@, needle@, k));
    }
    false
}

/// `pre` is a prefix of `s`.
pub open spec fn is_prefix(s: Seq<u8>, pre: Seq<u8>) -> bool {
    pre.len() <= s.len() && s.subrange(0, pre.len() as int) == pre
}

/// Copies `s[from..to]` into a fresh vector.
pub fn sub_vec(s: &[u8], from: usize, to: usize) -> (r: Vec<u8>)
    requires
        from <= to <= s.len(),
    ensures
        r@ == s@.subrange(from as int, to as int),
{
    let mut r: Vec<u8> = Vec::new();
    let mut i: usize = from;
    while i < to
        invariant
            from <= i <= to <= s.len(),
            r@ == s@.subrange(from as int, i as int),
        decreases to - i,
    {
        r.push(s[i]);
        proof {
            assert(r@ =~= s@.subrange(from as int, i + 1));
        }
        i += 1;
    }
    r
}

/// Copies a byte string.
pub fn copy_vec(s: &[u8]) -> (r: Vec<u8>)
    ensures
        r@ == s@,
{
    let r = sub_vec(s, 0, s.len());
    proof {
        assert(r@ =~= s@);
    }
    r
}

/// A path under a directory: the directory, a separator, the name.
pub open spec fn join_bytes(dir: Seq<u8>, name: Seq<u8>) -> Seq<u8> {
    dir + seq![47u8] + name
}

/// Joins a directory path and a name with a separator.
pub fn path_join(dir: &[u8], name: &[u8]) -> (r: Vec<u8>)
    ensures
        r@ == join_bytes(dir@, name@),
{
    let mut r = sub_vec(dir, 0, dir.len());
    r.push(47);
    push_all(&mut r, name);
    proof {
        assert(r@ =~= join_bytes(dir@, name@));
    }
    r
}

/// Under one directory, different names give different paths.
pub proof fn lemma_join_injective(dir: Seq<u8>, a: Seq<u8>, b: Seq<u8>)
    requires
        join_bytes(dir, a) == join_bytes(dir, b),
    ensures
        a == b,
{
    assert(join_bytes(dir, a).skip(dir.len() as int + 1) =~= a);
    assert(join_bytes(dir, b).skip(dir.len() as int + 1) =~= b);
}

/// Appends all of `src` to `dst`.
pub fn push_all(dst: &mut Vec<u8>, src: &[u8])
    ensures
        final(dst)@ == old(dst)@ + src@,
{
    let mut i: usize = 0;
    while i < src.len()
        invariant
            i <= src.len(),
            dst@ == old(dst)@ + src@.subrange(0, i as int),
        decreases src.len() - i,
    {
        dst.push(src[i]);
        proof {
            assert(old(dst)@ + src@.subrange(0, i + 1) =~= (old(dst)@ + src@.subrange(
                0,
                i as int,
            )).push(src@[i as int]));
        }
        i += 1;
    }
    proof {
        assert(src@.subrange(0, src@.len() as int) =~= src@);
    }
}

} // verus!
