//! Splitting record text into lines.
//!
//! Records are line-oriented; a line ends at a newline byte, and a trailing
//! carriage return is not part of the line.

use vstd::prelude::*;

verus! {

/// The line with a trailing carriage return removed.
pub open spec fn strip_cr(l: Seq<u8>) -> Seq<u8> {
    if l.len() > 0 && l.last() == 13u8 {
        l.drop_last()
    } else {
        l
    }
}

/// Position of the first newline byte in `s`, or -1 if there is none.
pub open spec fn first_nl(s: Seq<u8>) -> int
    decreases s.len(),
{
    if s.len() == 0 {
        -1
    } else if s[0] == 10u8 {
        0
    } else {
        let r = first_nl(s.skip(1));
        if r == -1 {
            -1
        } else {
            r + 1
        }
    }
}

pub proof fn lemma_first_nl_at(s: Seq<u8>, k: int)
    requires
        0 <= k < s.len(),
        s[k] == 10u8,
        forall|j: int| 0 <= j < k ==> s[j] != 10u8,
    ensures
        first_nl(s) == k,
    decreases k,
{
    if k > 0 {
        lemma_first_nl_at(s.skip(1), k - 1);
    }
}

pub proof fn lemma_first_nl_none(s: Seq<u8>)
    requires
        forall|j: int| 0 <= j < s.len() ==> s[j] != 10u8,
    ensures
        first_nl(s) == -1,
    decreases s.len(),
{
    if s.len() > 0 {
        lemma_first_nl_none(s.skip(1));
    }
}

/// `s` split at newline bytes, in order, each line stripped of a trailing
/// carriage return. A final newline does not open an extra empty line.
pub open spec fn split_lines(s: Seq<u8>) -> Seq<Seq<u8>>
    decreases s.len(),
{
    if s.len() == 0 {
        Seq::empty()
    } else {
        let k = first_nl(s);
        if 0 <= k < s.len() {
            seq![strip_cr(s.take(k))] + split_lines(s.skip(k + 1))
        } else {
            seq![strip_cr(s)]
        }
    }
}

/// Peeling one newline-terminated line off the front.
pub proof fn lemma_split_lines_cons(l: Seq<u8>, rest: Seq<u8>)
    requires
        forall|j: int| 0 <= j < l.len() ==> l[j] != 10u8,
    ensures
        split_lines(l + seq![10u8] + rest) == seq![strip_cr(l)] + split_lines(rest),
{
    let s = l + seq![10u8] + rest;
    assert(s[l.len() as int] == 10u8);
    lemma_first_nl_at(s, l.len() as int);
    assert(s.take(l.len() as int) =~= l);
    assert(s.skip(l.len() as int + 1) =~= rest);
}

/// A newline-free tail is a single line.
pub proof fn lemma_split_lines_last(l: Seq<u8>)
    requires
        forall|j: int| 0 <= j < l.len() ==> l[j] != 10u8,
        l.len() > 0,
    ensures
        split_lines(l) == seq![strip_cr(l)],
{
    lemma_first_nl_none(l);
}

/// Finds the first newline at or after `from`.
pub fn find_nl(s: &[u8], from: usize) -> (r: Option<usize>)
    requires
        from <= s.len(),
    ensures
        match r {
            Some(k) => from <= k < s.len() && s@[k as int] == 10u8 && forall|j: int|
                from <= j < k ==> s@[j] != 10u8,
            None => forall|j: int| from <= j < s.len() ==> s@[j] != 10u8,
        },
{
    let mut i: usize = from;
    while i < s.len()
        invariant
            from <= i <= s.len(),
            forall|j: int| from <= j < i ==> s@[j] != 10u8,
        decreases s.len() - i,
    {
        if s[i] == 10 {
            return Some(i);
        }
        i += 1;
    }
    None
}

} // verus!
