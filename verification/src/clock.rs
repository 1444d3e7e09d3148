//! UTC time stamps as text: the compact `YYYYMMDDTHHMMSS[.mmm]Z` form that
//! run IDs and export file names carry. chrono finds the calendar fields of
//! an instant; the text is laid out here.

use chrono::{Datelike, Timelike};
use vstd::prelude::*;

use crate::text::{decimal_text, push_decimal, string_of};

verus! {

/// The calendar fields of a UTC instant: year, month, day, hour, minute and
/// second.
#[derive(Debug, Clone, Copy)]
pub struct UtcFields {
    pub year: i32,
    pub month: u32,
    pub day: u32,
    pub hour: u32,
    pub minute: u32,
    pub second: u32,
}

pub open spec fn utc_fields_view(f: UtcFields) -> (int, nat, nat, nat, nat, nat) {
    (f.year as int, f.month as nat, f.day as nat, f.hour as nat, f.minute as nat, f.second as nat)
}

/// The calendar fields chrono gives the instant `secs` seconds and `nanos`
/// nanoseconds after the Unix epoch, in UTC, or none when chrono cannot
/// represent it.
pub uninterp spec fn chrono_utc_fields(secs: i64, nanos: u32) -> Option<(int, nat, nat, nat, nat, nat)>;

/// `chrono::DateTime::from_timestamp` and the date and time getters of the
/// instant it gives. The fields are named by `chrono_utc_fields` and depend
/// on the two arguments alone (the zone is UTC); the ranges are the ones
/// chrono documents for its getters, and a nanosecond count below one second
/// is no leap second, so the second is below 60.
#[verifier::external_body]
fn utc_fields(secs: i64, nanos: u32) -> (r: Option<UtcFields>)
    requires
        nanos < 1_000_000_000,
    ensures
        match r {
            Some(f) => chrono_utc_fields(secs, nanos) == Some(utc_fields_view(f)) && 1 <= f.month
                <= 12 && 1 <= f.day <= 31 && f.hour < 24 && f.minute < 60 && f.second < 60,
            None => chrono_utc_fields(secs, nanos) is None,
        },
{
    match chrono::DateTime::from_timestamp(secs, nanos) {
        Some(t) => Some(UtcFields {
            year: t.year(),
            month: t.month(),
            day: t.day(),
            hour: t.hour(),
            minute: t.minute(),
            second: t.second(),
        }),
        None => None,
    }
}

/// `n` in decimal, with zeros in front up to `width` digits.
pub open spec fn zero_padded(n: nat, width: nat) -> Seq<char> {
    let digits = decimal_text(n);
    if digits.len() >= width {
        digits
    } else {
        Seq::new((width - digits.len()) as nat, |i: int| '0') + digits
    }
}

/// A year as chrono's `%Y` writes it: four digits at least, with a sign
/// before years outside 0 to 9999.
pub open spec fn year_text(y: int) -> Seq<char> {
    if 0 <= y < 10000 {
        zero_padded(y as nat, 4)
    } else if y < 0 {
        seq!['-'] + zero_padded((-y) as nat, 4)
    } else {
        seq!['+'] + zero_padded(y as nat, 4)
    }
}

/// The compact stamp of calendar fields, with the milliseconds when given:
/// `%Y%m%dT%H%M%S%.3fZ`, or `%Y%m%dT%H%M%SZ` without them.
pub open spec fn stamp_layout(f: (int, nat, nat, nat, nat, nat), millis: Option<nat>) -> Seq<char> {
    year_text(f.0) + zero_padded(f.1, 2) + zero_padded(f.2, 2) + seq!['T'] + zero_padded(f.3, 2)
        + zero_padded(f.4, 2) + zero_padded(f.5, 2) + match millis {
        Some(m) => seq!['.'] + zero_padded(m, 3),
        None => Seq::empty(),
    } + seq!['Z']
}

/// The compact UTC stamp of an instant, when chrono can represent it.
pub open spec fn utc_stamp_of(secs: i64, nanos: u32, with_millis: bool) -> Option<Seq<char>> {
    match chrono_utc_fields(secs, nanos) {
        Some(f) => Some(
            stamp_layout(
                f,
                if with_millis {
                    Some((nanos / 1_000_000) as nat)
                } else {
                    None
                },
            ),
        ),
        None => None,
    }
}

fn push_padded(out: &mut Vec<char>, n: u64, width: usize)
    ensures
        final(out)@ == old(out)@ + zero_padded(n as nat, width as nat),
{
    let mut digits: Vec<char> = Vec::new();
    push_decimal(&mut digits, n);
    assert(digits@ =~= decimal_text(n as nat));
    let ghost before = out@;
    let len = digits.len();
    let mut k: usize = len;
    while k < width
        invariant
            digits@ == decimal_text(n as nat),
            len == digits@.len(),
            len <= k,
            len < width ==> k <= width,
            len >= width ==> k == len,
            out@ == before + Seq::new((k - len) as nat, |i: int| '0'),
        decreases width - k,
    {
        out.push('0');
        assert(Seq::new((k + 1 - len) as nat, |i: int| '0') =~= Seq::new(
            (k - len) as nat,
            |i: int| '0',
        ).push('0'));
        k = k + 1;
    }
    let ghost zeros = Seq::new((k - len) as nat, |i: int| '0');
    out.extend_from_slice(digits.as_slice());
    if len >= width {
        assert(zeros =~= Seq::<char>::empty());
    }
    assert(out@ =~= before + zero_padded(n as nat, width as nat));
}

/// The compact UTC stamp `YYYYMMDDTHHMMSS.mmmZ` (or `YYYYMMDDTHHMMSSZ`
/// without milliseconds) of the instant `secs` seconds and `nanos`
/// nanoseconds after the Unix epoch, as chrono's `%Y%m%dT%H%M%S%.3fZ`
/// writes it; none when chrono cannot represent the instant.
pub fn utc_stamp(secs: i64, nanos: u32, with_millis: bool) -> (r: Option<String>)
    requires
        nanos < 1_000_000_000,
    ensures
        match r {
            Some(t) => utc_stamp_of(secs, nanos, with_millis) == Some(t@),
            None => utc_stamp_of(secs, nanos, with_millis) is None,
        },
{
    let f = match utc_fields(secs, nanos) {
        Some(f) => f,
        None => {
            return None;
        },
    };
    let mut out: Vec<char> = Vec::new();
    if 0 <= f.year && f.year < 10000 {
        push_padded(&mut out, f.year as u64, 4);
    } else if f.year < 0 {
        out.push('-');
        let magnitude: i64 = -(f.year as i64);
        push_padded(&mut out, magnitude as u64, 4);
        assert(out@ =~= seq!['-'] + zero_padded((-(f.year as int)) as nat, 4));
    } else {
        out.push('+');
        push_padded(&mut out, f.year as u64, 4);
        assert(out@ =~= seq!['+'] + zero_padded(f.year as nat, 4));
    }
    let ghost year = out@;
    assert(year == year_text(f.year as int));
    push_padded(&mut out, f.month as u64, 2);
    push_padded(&mut out, f.day as u64, 2);
    out.push('T');
    push_padded(&mut out, f.hour as u64, 2);
    push_padded(&mut out, f.minute as u64, 2);
    push_padded(&mut out, f.second as u64, 2);
    let ghost time = out@;
    if with_millis {
        out.push('.');
        push_padded(&mut out, (nanos / 1_000_000) as u64, 3);
    }
    let ghost frac = out@.skip(time.len() as int);
    out.push('Z');
    let ghost fv = utc_fields_view(f);
    let ghost millis: Option<nat> = if with_millis {
        Some((nanos / 1_000_000) as nat)
    } else {
        None
    };
    assert(frac =~= match millis {
        Some(m) => seq!['.'] + zero_padded(m, 3),
        None => Seq::<char>::empty(),
    });
    assert(out@ =~= stamp_layout(fv, millis));
    Some(string_of(out.as_slice()))
}

} // verus!
