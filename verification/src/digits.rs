//! Rendering numbers as ASCII decimal and hexadecimal digits.
//!
//! The collision-safe naming probe and the timestamp format both hang on
//! these: a counter must render injectively (two different counters never
//! give the same name), and timestamp fields render at fixed width.

use vstd::prelude::*;

verus! {

/// The ASCII digit for `n`, for `0 <= n <= 9`.
pub open spec fn digit(n: int) -> u8 {
    (48 + n) as u8
}

/// The shortest decimal rendering of `n`, most significant digit first.
pub open spec fn dec_rep(n: nat) -> Seq<u8>
    decreases n,
{
    if n < 10 {
        seq![digit(n as int)]
    } else {
        dec_rep(n / 10).push(digit((n % 10) as int))
    }
}

pub proof fn lemma_dec_rep_len(n: nat)
    ensures
        dec_rep(n).len() >= 1,
    decreases n,
{
    if n >= 10 {
        lemma_dec_rep_len(n / 10);
    }
}

/// Two different numbers never render to the same digit string.
pub proof fn lemma_dec_rep_injective(a: nat, b: nat)
    requires
        dec_rep(a) == dec_rep(b),
    ensures
        a == b,
    decreases a,
{
    lemma_dec_rep_len(a);
    lemma_dec_rep_len(b);
    if a < 10 && b < 10 {
        assert(dec_rep(a)[0] == digit(a as int));
        assert(dec_rep(b)[0] == digit(b as int));
        assert(48 + a < 256 && 48 + b < 256);
    } else if a < 10 {
        lemma_dec_rep_len(b / 10);
        assert(dec_rep(b).len() >= 2);
    } else if b < 10 {
        lemma_dec_rep_len(a / 10);
        assert(dec_rep(a).len() >= 2);
    } else {
        assert(dec_rep(a) == dec_rep(a / 10).push(digit((a % 10) as int)));
        assert(dec_rep(b) == dec_rep(b / 10).push(digit((b % 10) as int)));
        assert(dec_rep(a).last() == digit((a % 10) as int));
        assert(dec_rep(b).last() == digit((b % 10) as int));
        assert(48 + a % 10 < 256 && 48 + b % 10 < 256);
        assert(a % 10 == b % 10);
        assert(dec_rep(a).drop_last() =~= dec_rep(a / 10));
        assert(dec_rep(b).drop_last() =~= dec_rep(b / 10));
        lemma_dec_rep_injective(a / 10, b / 10);
    }
}

/// Appends the decimal rendering of `n` to `v`.
pub fn push_dec(v: &mut Vec<u8>, n: u64)
    ensures
        final(v)@ == old(v)@ + dec_rep(n as nat),
    decreases n,
{
    if n < 10 {
        v.push(48 + n as u8);
        proof {
            assert(old(v)@ + dec_rep(n as nat) =~= old(v)@.push(digit(n as int)));
        }
    } else {
        push_dec(v, n / 10);
        v.push(48 + (n % 10) as u8);
        proof {
            assert(old(v)@ + dec_rep(n as nat) =~= (old(v)@ + dec_rep((n / 10) as nat)).push(
                digit((n % 10) as int),
            ));
        }
    }
}

/// A two-digit zero-padded rendering, for `0 <= n < 100`.
pub open spec fn pad2(n: int) -> Seq<u8> {
    seq![digit(n / 10), digit(n % 10)]
}

/// A four-digit zero-padded rendering, for `0 <= n <= 9999`.
pub open spec fn pad4(n: int) -> Seq<u8> {
    seq![digit(n / 1000), digit((n / 100) % 10), digit((n / 10) % 10), digit(n % 10)]
}

/// Appends the two-digit rendering of `n`.
pub fn push_pad2(v: &mut Vec<u8>, n: u8)
    requires
        n < 100,
    ensures
        final(v)@ == old(v)@ + pad2(n as int),
{
    v.push(48 + n / 10);
    v.push(48 + n % 10);
    proof {
        assert(old(v)@ + pad2(n as int) =~= old(v)@.push(digit(n as int / 10)).push(
            digit(n as int % 10),
        ));
    }
}

/// Appends the four-digit rendering of `n`.
pub fn push_pad4(v: &mut Vec<u8>, n: u16)
    requires
        n <= 9999,
    ensures
        final(v)@ == old(v)@ + pad4(n as int),
{
    v.push(48 + (n / 1000) as u8);
    v.push(48 + ((n / 100) % 10) as u8);
    v.push(48 + ((n / 10) % 10) as u8);
    v.push(48 + (n % 10) as u8);
    proof {
        assert(old(v)@ + pad4(n as int) =~= old(v)@.push(digit(n as int / 1000)).push(
            digit((n as int / 100) % 10),
        ).push(digit((n as int / 10) % 10)).push(digit(n as int % 10)));
    }
}

/// Is `b` an ASCII decimal digit?
pub open spec fn is_digit(b: u8) -> bool {
    48 <= b <= 57
}

/// The numeric value of a digit byte.
pub open spec fn digit_val(b: u8) -> int {
    b - 48
}

/// Reads two digit bytes at `at` as a zero-padded number.
pub fn parse2(s: &[u8], at: usize) -> (r: Option<u8>)
    requires
        at + 2 <= s.len(),
    ensures
        match r {
            Some(v) => v < 100 && s@.subrange(at as int, at + 2) == pad2(v as int),
            None => forall|v: int| 0 <= v < 100 ==> s@.subrange(at as int, at + 2) != pad2(v),
        },
{
    let b0 = s[at];
    let b1 = s[at + 1];
    if 48 <= b0 && b0 <= 57 && 48 <= b1 && b1 <= 57 {
        let v = (b0 - 48) * 10 + (b1 - 48);
        proof {
            assert(s@.subrange(at as int, at + 2) =~= pad2(v as int));
        }
        Some(v)
    } else {
        proof {
            assert forall|v: int| 0 <= v < 100 implies s@.subrange(at as int, at + 2) != pad2(
                v,
            ) by {
                assert(pad2(v)[0] == digit(v / 10) && pad2(v)[1] == digit(v % 10));
                assert(s@.subrange(at as int, at + 2)[0] == b0);
                assert(s@.subrange(at as int, at + 2)[1] == b1);
            }
        }
        None
    }
}

proof fn lemma_place_values(x0: int, x1: int, x2: int, x3: int)
    requires
        0 <= x0 < 10,
        0 <= x1 < 10,
        0 <= x2 < 10,
        0 <= x3 < 10,
    ensures
        (1000 * x0 + 100 * x1 + 10 * x2 + x3) / 1000 == x0,
        ((1000 * x0 + 100 * x1 + 10 * x2 + x3) / 100) % 10 == x1,
        ((1000 * x0 + 100 * x1 + 10 * x2 + x3) / 10) % 10 == x2,
        (1000 * x0 + 100 * x1 + 10 * x2 + x3) % 10 == x3,
{
    let v = 1000 * x0 + 100 * x1 + 10 * x2 + x3;
    assert(v / 1000 == x0 && (v / 100) % 10 == x1 && (v / 10) % 10 == x2 && v % 10 == x3)
        by (nonlinear_arith)
        requires
            0 <= x0 < 10,
            0 <= x1 < 10,
            0 <= x2 < 10,
            0 <= x3 < 10,
            v == 1000 * x0 + 100 * x1 + 10 * x2 + x3,
    ;
}

/// Reads four digit bytes at `at` as a zero-padded number.
#[verifier::rlimit(50)]
pub fn parse4(s: &[u8], at: usize) -> (r: Option<u16>)
    requires
        at + 4 <= s.len(),
    ensures
        match r {
            Some(v) => v <= 9999 && s@.subrange(at as int, at + 4) == pad4(v as int),
            None => forall|v: int| 0 <= v <= 9999 ==> s@.subrange(at as int, at + 4) != pad4(v),
        },
{
    let b0 = s[at];
    let b1 = s[at + 1];
    let b2 = s[at + 2];
    let b3 = s[at + 3];
    if 48 <= b0 && b0 <= 57 && 48 <= b1 && b1 <= 57 && 48 <= b2 && b2 <= 57 && 48 <= b3 && b3 <= 57
    {
        let v = (b0 - 48) as u16 * 1000 + (b1 - 48) as u16 * 100 + (b2 - 48) as u16 * 10 + (b3
            - 48) as u16;
        proof {
            lemma_place_values(b0 - 48, b1 - 48, b2 - 48, b3 - 48);
            assert(pad4(v as int)[0] == b0 && pad4(v as int)[1] == b1 && pad4(v as int)[2] == b2
                && pad4(v as int)[3] == b3);
            assert(s@.subrange(at as int, at + 4) =~= pad4(v as int));
        }
        Some(v)
    } else {
        proof {
            assert forall|v: int| 0 <= v <= 9999 implies s@.subrange(at as int, at + 4) != pad4(
                v,
            ) by {
                assert(pad4(v)[0] == digit(v / 1000));
                assert(pad4(v)[1] == digit((v / 100) % 10));
                assert(pad4(v)[2] == digit((v / 10) % 10));
                assert(pad4(v)[3] == digit(v % 10));
                assert(s@.subrange(at as int, at + 4)[0] == b0);
                assert(s@.subrange(at as int, at + 4)[1] == b1);
                assert(s@.subrange(at as int, at + 4)[2] == b2);
                assert(s@.subrange(at as int, at + 4)[3] == b3);
            }
        }
        None
    }
}

/// The ASCII digit for `n` in base 16, lower case, for `0 <= n <= 15`.
pub open spec fn hex_digit(n: int) -> u8 {
    if n < 10 {
        (48 + n) as u8
    } else {
        (87 + n) as u8
    }
}

/// `n` rendered in hexadecimal at exactly `w` digits, truncating high bits.
pub open spec fn hex_fixed(n: nat, w: nat) -> Seq<u8>
    decreases w,
{
    if w == 0 {
        Seq::empty()
    } else {
        hex_fixed(n / 16, (w - 1) as nat).push(hex_digit((n % 16) as int))
    }
}

/// Appends the `w`-digit hexadecimal rendering of `n`.
pub fn push_hex_fixed(v: &mut Vec<u8>, n: u64, w: u64)
    ensures
        final(v)@ == old(v)@ + hex_fixed(n as nat, w as nat),
    decreases w,
{
    if w == 0 {
        proof {
            assert(old(v)@ + hex_fixed(n as nat, 0) =~= old(v)@);
        }
    } else {
        push_hex_fixed(v, n / 16, w - 1);
        let d = (n % 16) as u8;
        if d < 10 {
            v.push(48 + d);
        } else {
            v.push(87 + d);
        }
        proof {
            assert(old(v)@ + hex_fixed(n as nat, w as nat) =~= (old(v)@ + hex_fixed(
                (n / 16) as nat,
                (w - 1) as nat,
            )).push(hex_digit((n % 16) as int)));
        }
    }
}

} // verus!
