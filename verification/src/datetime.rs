//! Wall-clock timestamps and their fixed-width text form.
//!
//! A deletion time is recorded as `YYYY-MM-DDTHH:MM:SS` and shown to the user
//! as `YYYY-MM-DD HH:MM:SS`. Parsing accepts exactly the renderings of valid
//! timestamps, so a recorded time always reads back as itself.

use vstd::prelude::*;

use crate::digits::{pad2, pad4, push_pad2, push_pad4};

verus! {

/// A local wall-clock time, second precision.
#[derive(Clone, Copy, Debug, PartialEq, Eq, Structural)]
pub struct DateTime {
    pub year: u16,
    pub month: u8,
    pub day: u8,
    pub hour: u8,
    pub minute: u8,
    pub second: u8,
}

/// Is `year` a leap year (proleptic Gregorian)?
pub open spec fn spec_is_leap_year(year: int) -> bool {
    year % 4 == 0 && (year % 100 != 0 || year % 400 == 0)
}

/// How many days the given month has.
pub open spec fn spec_days_in_month(year: int, month: int) -> int {
    if month == 2 {
        if spec_is_leap_year(year) {
            29
        } else {
            28
        }
    } else if month == 4 || month == 6 || month == 9 || month == 11 {
        30
    } else {
        31
    }
}

/// How many days the given month has, for months `1..=12`.
pub fn days_in_month(year: u16, month: u8) -> (r: u8)
    requires
        1 <= month <= 12,
    ensures
        r == spec_days_in_month(year as int, month as int),
{
    if month == 2 {
        if year % 4 == 0 && (year % 100 != 0 || year % 400 == 0) {
            29
        } else {
            28
        }
    } else if month == 4 || month == 6 || month == 9 || month == 11 {
        30
    } else {
        31
    }
}

impl DateTime {
    /// A calendar-valid timestamp that fits the four-digit-year format.
    pub open spec fn wf(self) -> bool {
        &&& self.year <= 9999
        &&& 1 <= self.month <= 12
        &&& 1 <= self.day <= spec_days_in_month(self.year as int, self.month as int)
        &&& self.hour < 24
        &&& self.minute < 60
        &&& self.second < 60
    }

    /// Checks calendar validity.
    pub fn is_wf(&self) -> (r: bool)
        ensures
            r == self.wf(),
    {
        self.year <= 9999 && 1 <= self.month && self.month <= 12 && 1 <= self.day && self.day
            <= days_in_month(self.year, self.month) && self.hour < 24 && self.minute < 60
            && self.second < 60
    }
}

/// The rendering of `dt` with `sep` between the date and the time.
pub open spec fn dt_bytes_sep(dt: DateTime, sep: u8) -> Seq<u8> {
    pad4(dt.year as int) + seq![45u8] + pad2(dt.month as int) + seq![45u8] + pad2(dt.day as int)
        + seq![sep] + pad2(dt.hour as int) + seq![58u8] + pad2(dt.minute as int) + seq![58u8]
        + pad2(dt.second as int)
}

/// The record form: `YYYY-MM-DDTHH:MM:SS`.
pub open spec fn dt_bytes(dt: DateTime) -> Seq<u8> {
    dt_bytes_sep(dt, 84u8)
}

/// Where each field sits inside the 19-byte rendering.
pub proof fn lemma_dt_bytes_parts(dt: DateTime, sep: u8)
    ensures
        dt_bytes_sep(dt, sep).len() == 19,
        dt_bytes_sep(dt, sep).subrange(0, 4) == pad4(dt.year as int),
        dt_bytes_sep(dt, sep)[4] == 45u8,
        dt_bytes_sep(dt, sep).subrange(5, 7) == pad2(dt.month as int),
        dt_bytes_sep(dt, sep)[7] == 45u8,
        dt_bytes_sep(dt, sep).subrange(8, 10) == pad2(dt.day as int),
        dt_bytes_sep(dt, sep)[10] == sep,
        dt_bytes_sep(dt, sep).subrange(11, 13) == pad2(dt.hour as int),
        dt_bytes_sep(dt, sep)[13] == 58u8,
        dt_bytes_sep(dt, sep).subrange(14, 16) == pad2(dt.minute as int),
        dt_bytes_sep(dt, sep)[16] == 58u8,
        dt_bytes_sep(dt, sep).subrange(17, 19) == pad2(dt.second as int),
{
    let s = dt_bytes_sep(dt, sep);
    assert(s.subrange(0, 4) =~= pad4(dt.year as int));
    assert(s.subrange(5, 7) =~= pad2(dt.month as int));
    assert(s.subrange(8, 10) =~= pad2(dt.day as int));
    assert(s.subrange(11, 13) =~= pad2(dt.hour as int));
    assert(s.subrange(14, 16) =~= pad2(dt.minute as int));
    assert(s.subrange(17, 19) =~= pad2(dt.second as int));
}

/// Two-digit renderings identify their value.
pub proof fn lemma_pad2_injective(a: int, b: int)
    requires
        0 <= a < 100,
        0 <= b < 100,
        pad2(a) == pad2(b),
    ensures
        a == b,
{
    assert(pad2(a)[0] == pad2(b)[0] && pad2(a)[1] == pad2(b)[1]);
    assert(a / 10 == b / 10 && a % 10 == b % 10);
}

/// Four-digit renderings identify their value.
pub proof fn lemma_pad4_injective(a: int, b: int)
    requires
        0 <= a <= 9999,
        0 <= b <= 9999,
        pad4(a) == pad4(b),
    ensures
        a == b,
{
    assert(pad4(a)[0] == pad4(b)[0] && pad4(a)[1] == pad4(b)[1] && pad4(a)[2] == pad4(b)[2] && pad4(
        a,
    )[3] == pad4(b)[3]);
    assert(a / 1000 == b / 1000 && (a / 100) % 10 == (b / 100) % 10 && (a / 10) % 10 == (b / 10)
        % 10 && a % 10 == b % 10);
}

/// The rendering identifies the timestamp: no two valid timestamps share it.
pub proof fn lemma_dt_bytes_injective(a: DateTime, b: DateTime, sep: u8)
    requires
        a.wf(),
        b.wf(),
        dt_bytes_sep(a, sep) == dt_bytes_sep(b, sep),
    ensures
        a == b,
{
    lemma_dt_bytes_parts(a, sep);
    lemma_dt_bytes_parts(b, sep);
    lemma_pad4_injective(a.year as int, b.year as int);
    lemma_pad2_injective(a.month as int, b.month as int);
    lemma_pad2_injective(a.day as int, b.day as int);
    lemma_pad2_injective(a.hour as int, b.hour as int);
    lemma_pad2_injective(a.minute as int, b.minute as int);
    lemma_pad2_injective(a.second as int, b.second as int);
}

/// A rendered timestamp is plain text: no newline and no carriage return.
pub proof fn lemma_dt_bytes_text(dt: DateTime, sep: u8)
    requires
        dt.wf(),
        sep != 10u8,
        sep != 13u8,
    ensures
        forall|i: int|
            0 <= i < dt_bytes_sep(dt, sep).len() ==> dt_bytes_sep(dt, sep)[i] != 10u8
                && dt_bytes_sep(dt, sep)[i] != 13u8,
{
    lemma_dt_bytes_parts(dt, sep);
    let s = dt_bytes_sep(dt, sep);
    assert forall|i: int| 0 <= i < s.len() implies s[i] != 10u8 && s[i] != 13u8 by {
        if i < 4 {
            assert(s[i] == pad4(dt.year as int)[i]);
            assert(0 <= dt.year as int / 1000 <= 9);
        } else if i == 4 || i == 7 || i == 10 || i == 13 || i == 16 {
        } else if i < 7 {
            assert(s[i] == pad2(dt.month as int)[i - 5]);
        } else if i < 10 {
            assert(s[i] == pad2(dt.day as int)[i - 8]);
        } else if i < 13 {
            assert(s[i] == pad2(dt.hour as int)[i - 11]);
        } else if i < 16 {
            assert(s[i] == pad2(dt.minute as int)[i - 14]);
        } else {
            assert(s[i] == pad2(dt.second as int)[i - 17]);
        }
    }
}

/// The valid timestamp that `s` renders, if any.
pub open spec fn dt_of_bytes_sep(s: Seq<u8>, sep: u8) -> Option<DateTime> {
    if exists|dt: DateTime| dt.wf() && dt_bytes_sep(dt, sep) == s {
        Some(choose|dt: DateTime| dt.wf() && dt_bytes_sep(dt, sep) == s)
    } else {
        None
    }
}

/// The valid timestamp whose record form is `s`, if any.
pub open spec fn dt_of_bytes(s: Seq<u8>) -> Option<DateTime> {
    dt_of_bytes_sep(s, 84u8)
}

fn format_with_sep(dt: &DateTime, sep: u8) -> (r: Vec<u8>)
    requires
        dt.wf(),
    ensures
        r@ == dt_bytes_sep(*dt, sep),
{
    let mut r: Vec<u8> = Vec::new();
    push_pad4(&mut r, dt.year);
    r.push(45);
    push_pad2(&mut r, dt.month);
    r.push(45);
    push_pad2(&mut r, dt.day);
    r.push(sep);
    push_pad2(&mut r, dt.hour);
    r.push(58);
    push_pad2(&mut r, dt.minute);
    r.push(58);
    push_pad2(&mut r, dt.second);
    proof {
        assert(r@ =~= dt_bytes_sep(*dt, sep));
    }
    r
}

/// Renders `dt` in the record form `YYYY-MM-DDTHH:MM:SS`.
pub fn format_datetime(dt: &DateTime) -> (r: Vec<u8>)
    requires
        dt.wf(),
    ensures
        r@ == dt_bytes(*dt),
{
    format_with_sep(dt, 84)
}

/// Renders `dt` for display, `YYYY-MM-DD HH:MM:SS`.
pub fn format_datetime_display(dt: &DateTime) -> (r: Vec<u8>)
    requires
        dt.wf(),
    ensures
        r@ == dt_bytes_sep(*dt, 32u8),
{
    format_with_sep(dt, 32)
}

/// Parses the record form: accepts exactly the renderings of valid timestamps.
pub fn parse_datetime(s: &[u8]) -> (r: Option<DateTime>)
    ensures
        r == dt_of_bytes(s@),
        match r {
            Some(dt) => dt.wf() && dt_bytes(dt) == s@,
            None => forall|dt: DateTime| dt.wf() ==> dt_bytes(dt) != s@,
        },
{
    let r = parse_datetime_fields(s);
    proof {
        match r {
            Some(dt) => {
                let w = choose|x: DateTime| x.wf() && dt_bytes_sep(x, 84u8) == s@;
                lemma_dt_bytes_injective(dt, w, 84u8);
            },
            None => {},
        }
    }
    r
}

fn parse_datetime_fields(s: &[u8]) -> (r: Option<DateTime>)
    ensures
        match r {
            Some(dt) => dt.wf() && dt_bytes(dt) == s@,
            None => forall|dt: DateTime| dt.wf() ==> dt_bytes(dt) != s@,
        },
{
    proof {
        assert forall|dt: DateTime| dt.wf() implies dt_bytes(dt).len() == 19 by {
            lemma_dt_bytes_parts(dt, 84u8);
        }
    }
    if s.len() != 19 {
        return None;
    }
    let year = match crate::digits::parse4(s, 0) {
        Some(v) => v,
        None => {
            proof {
                assert forall|dt: DateTime| dt.wf() implies dt_bytes(dt) != s@ by {
                    lemma_dt_bytes_parts(dt, 84u8);
                }
            }
            return None;
        },
    };
    let month = match crate::digits::parse2(s, 5) {
        Some(v) => v,
        None => {
            proof {
                assert forall|dt: DateTime| dt.wf() implies dt_bytes(dt) != s@ by {
                    lemma_dt_bytes_parts(dt, 84u8);
                }
            }
            return None;
        },
    };
    let day = match crate::digits::parse2(s, 8) {
        Some(v) => v,
        None => {
            proof {
                assert forall|dt: DateTime| dt.wf() implies dt_bytes(dt) != s@ by {
                    lemma_dt_bytes_parts(dt, 84u8);
                }
            }
            return None;
        },
    };
    let hour = match crate::digits::parse2(s, 11) {
        Some(v) => v,
        None => {
            proof {
                assert forall|dt: DateTime| dt.wf() implies dt_bytes(dt) != s@ by {
                    lemma_dt_bytes_parts(dt, 84u8);
                }
            }
            return None;
        },
    };
    let minute = match crate::digits::parse2(s, 14) {
        Some(v) => v,
        None => {
            proof {
                assert forall|dt: DateTime| dt.wf() implies dt_bytes(dt) != s@ by {
                    lemma_dt_bytes_parts(dt, 84u8);
                }
            }
            return None;
        },
    };
    let second = match crate::digits::parse2(s, 17) {
        Some(v) => v,
        None => {
            proof {
                assert forall|dt: DateTime| dt.wf() implies dt_bytes(dt) != s@ by {
                    lemma_dt_bytes_parts(dt, 84u8);
                }
            }
            return None;
        },
    };
    if !(s[4] == 45 && s[7] == 45 && s[10] == 84 && s[13] == 58 && s[16] == 58) {
        proof {
            assert forall|dt: DateTime| dt.wf() implies dt_bytes(dt) != s@ by {
                lemma_dt_bytes_parts(dt, 84u8);
            }
        }
        return None;
    }
    let dt = DateTime { year, month, day, hour, minute, second };
    if dt.is_wf() {
        proof {
            lemma_dt_bytes_parts(dt, 84u8);
            assert(dt_bytes(dt) =~= s@);
        }
        Some(dt)
    } else {
        proof {
            assert forall|x: DateTime| x.wf() implies dt_bytes(x) != s@ by {
                lemma_dt_bytes_parts(x, 84u8);
                if dt_bytes(x) == s@ {
                    lemma_pad4_injective(x.year as int, year as int);
                    lemma_pad2_injective(x.month as int, month as int);
                    lemma_pad2_injective(x.day as int, day as int);
                    lemma_pad2_injective(x.hour as int, hour as int);
                    lemma_pad2_injective(x.minute as int, minute as int);
                    lemma_pad2_injective(x.second as int, second as int);
                }
            }
        }
        None
    }
}

} // verus!
