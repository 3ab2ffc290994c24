//! Readings of the system clock, taken through chrono, and instants written as UTC text.
use vstd::prelude::*;
use crate::text::{digit_char, digit_to_char, string_of};

verus! {

/// Calls `chrono::Utc::now` once and gives the reading as milliseconds and, where it fits
/// an `i64`, nanoseconds since the Unix epoch (`timestamp_millis`, `timestamp_nanos_opt`).
/// chrono computes both from the same seconds and sub-second nanoseconds, so the
/// milliseconds are the nanoseconds divided by a million, rounded down. What time it is,
/// the contract does not say.
#[verifier::external_body]
pub(crate) fn utc_now() -> (t: (i64, Option<i64>))
    ensures
        t.1 matches Some(n) ==> t.0 == n / 1_000_000,
{
    let now = chrono::Utc::now();
    (now.timestamp_millis(), now.timestamp_nanos_opt())
}

/// The current time in nanoseconds since the Unix epoch, or 0 where it does not fit an `i64`.
pub fn now_nanos() -> (n: i64) {
    let (_, nanos) = utc_now();
    match nanos {
        Some(n) => n,
        None => 0,
    }
}

/// Whole seconds since the Unix epoch at the instant `nanos` (rounded down).
pub open spec fn seconds_of(nanos: i64) -> int {
    (nanos as int) / 1_000_000_000
}

/// Days since 1970-01-01 at the instant `nanos` (UTC, rounded down).
pub open spec fn day_of(nanos: i64) -> int {
    seconds_of(nanos) / 86400
}

/// Seconds since midnight UTC at the instant `nanos`.
pub open spec fn second_of_day(nanos: i64) -> int {
    seconds_of(nanos) % 86400
}

/// The proleptic Gregorian date (year, month, day) `days` days after 1970-01-01: the days
/// are counted in eras of 400 years starting on 0000-03-01, and the year in an era from
/// March on.
pub open spec fn civil_from_days(days: int) -> (int, int, int) {
    let z = days + 719468;
    let era = z / 146097;
    let doe = z - era * 146097;
    let yoe = (doe - doe / 1460 + doe / 36524 - doe / 146096) / 365;
    let doy = doe - (365 * yoe + yoe / 4 - yoe / 100);
    let mp = (5 * doy + 2) / 153;
    let d = doy - (153 * mp + 2) / 5 + 1;
    let m = if mp < 10 { mp + 3 } else { mp - 9 };
    let y = yoe + era * 400 + (if m <= 2 { 1int } else { 0int });
    (y, m, d)
}

/// The last two decimal digits of `v`.
pub open spec fn two_digits(v: int) -> Seq<char> {
    seq![digit_char(((v / 10) % 10) as nat), digit_char((v % 10) as nat)]
}

/// The last four decimal digits of `v`.
pub open spec fn four_digits(v: int) -> Seq<char> {
    seq![
        digit_char(((v / 1000) % 10) as nat),
        digit_char(((v / 100) % 10) as nat),
        digit_char(((v / 10) % 10) as nat),
        digit_char((v % 10) as nat),
    ]
}

/// The minute of the instant `nanos` in UTC as `YYYYMMDDHHMM` (chrono's `%Y%m%d%H%M`; every
/// instant an `i64` of nanoseconds holds falls in a four-digit year).
#[verifier::opaque]
pub open spec fn minute_stamp(nanos: i64) -> Seq<char> {
    let (y, m, d) = civil_from_days(day_of(nanos));
    let sod = second_of_day(nanos);
    four_digits(y) + two_digits(m) + two_digits(d) + two_digits(sod / 3600) + two_digits((sod % 3600) / 60)
}

/// The time of day of the instant `nanos` in UTC as `HH:MM:SS` (chrono's `%H:%M:%S`).
pub open spec fn clock_text(nanos: i64) -> Seq<char> {
    let sod = second_of_day(nanos);
    two_digits(sod / 3600) + seq![':'] + two_digits((sod % 3600) / 60) + seq![':'] + two_digits(sod % 60)
}

/// A minute stamp always has twelve characters.
pub proof fn lemma_minute_stamp_len(nanos: i64)
    ensures
        minute_stamp(nanos).len() == 12,
{
    reveal(minute_stamp);
    let (y, m, d) = civil_from_days(day_of(nanos));
    let sod = second_of_day(nanos);
    assert(four_digits(y).len() == 4);
    assert(two_digits(m).len() == 2);
    assert(two_digits(d).len() == 2);
    assert(two_digits(sod / 3600).len() == 2);
    assert(two_digits((sod % 3600) / 60).len() == 2);
}

proof fn lemma_floor_div_bounds(a: int, b: int)
    requires
        b > 0,
    ensures
        a >= 0 ==> 0 <= a / b <= a,
        a < 0 ==> a <= a / b < 0,
        0 <= a % b < b,
{
    vstd::arithmetic::div_mod::lemma_fundamental_div_mod(a, b);
    vstd::arithmetic::div_mod::lemma_mod_bound(a, b);
    let q = a / b;
    let r = a % b;
    assert(a >= 0 ==> 0 <= q <= a) by (nonlinear_arith)
        requires
            a == b * q + r,
            0 <= r < b,
            b > 0,
    ;
    assert(a < 0 ==> a <= q < 0) by (nonlinear_arith)
        requires
            a == b * q + r,
            0 <= r < b,
            b > 0,
    ;
}

/// `a` divided by `b`, rounded down.
fn floor_div(a: i128, b: i128) -> (q: i128)
    requires
        b > 0,
    ensures
        q == a / b,
        a >= 0 ==> 0 <= q <= a,
        a < 0 ==> a <= q < 0,
{
    proof {
        lemma_floor_div_bounds(a as int, b as int);
    }
    a.checked_div_euclid(b).unwrap()
}

/// The remainder of `a` divided by `b`, rounded down: from 0 to `b` less one.
fn floor_mod(a: i128, b: i128) -> (r: i128)
    requires
        b > 0,
    ensures
        r == a % b,
        0 <= r < b,
{
    proof {
        lemma_floor_div_bounds(a as int, b as int);
    }
    a.checked_rem_euclid(b).unwrap()
}

/// The date `days` days after 1970-01-01, as `civil_from_days` gives it.
fn civil(days: i128) -> (r: (i128, i128, i128))
    requires
        -1_000_000_000 <= days <= 1_000_000_000,
    ensures
        r.0 == civil_from_days(days as int).0,
        r.1 == civil_from_days(days as int).1,
        r.2 == civil_from_days(days as int).2,
{
    let z = days + 719468;
    let era = floor_div(z, 146097);
    let doe = z - era * 146097;
    let yoe = floor_div(doe - floor_div(doe, 1460) + floor_div(doe, 36524) - floor_div(doe, 146096), 365);
    let doy = doe - (365 * yoe + floor_div(yoe, 4) - floor_div(yoe, 100));
    let mp = floor_div(5 * doy + 2, 153);
    let d = doy - floor_div(153 * mp + 2, 5) + 1;
    let m = if mp < 10 { mp + 3 } else { mp - 9 };
    let y = yoe + era * 400 + (if m <= 2 { 1 } else { 0 });
    (y, m, d)
}

/// Appends the last `width` (two or four) decimal digits of `v` to `out`.
fn push_digits(out: &mut Vec<char>, v: i128, width: usize)
    requires
        width == 2 || width == 4,
    ensures
        final(out)@ == old(out)@ + (if width == 2 { two_digits(v as int) } else { four_digits(v as int) }),
{
    if width == 4 {
        out.push(digit_to_char(floor_mod(floor_div(v, 1000), 10) as u64));
        out.push(digit_to_char(floor_mod(floor_div(v, 100), 10) as u64));
    }
    out.push(digit_to_char(floor_mod(floor_div(v, 10), 10) as u64));
    out.push(digit_to_char(floor_mod(v, 10) as u64));
}

/// The minute of the instant `nanos` in UTC as `YYYYMMDDHHMM`.
pub fn minute_stamp_text(nanos: i64) -> (s: String)
    ensures
        s@ == minute_stamp(nanos),
{
    reveal(minute_stamp);
    let secs = floor_div(nanos as i128, 1_000_000_000);
    let days = floor_div(secs, 86400);
    let sod = floor_mod(secs, 86400);
    let (y, m, d) = civil(days);
    let mut out: Vec<char> = Vec::new();
    push_digits(&mut out, y, 4);
    push_digits(&mut out, m, 2);
    push_digits(&mut out, d, 2);
    push_digits(&mut out, floor_div(sod, 3600), 2);
    push_digits(&mut out, floor_div(floor_mod(sod, 3600), 60), 2);
    string_of(out.as_slice())
}

/// The time of day of the instant `nanos` in UTC as `HH:MM:SS`.
pub fn clock_text_of(nanos: i64) -> (s: String)
    ensures
        s@ == clock_text(nanos),
{
    let secs = floor_div(nanos as i128, 1_000_000_000);
    let sod = floor_mod(secs, 86400);
    let mut out: Vec<char> = Vec::new();
    push_digits(&mut out, floor_div(sod, 3600), 2);
    out.push(':');
    push_digits(&mut out, floor_div(floor_mod(sod, 3600), 60), 2);
    out.push(':');
    push_digits(&mut out, floor_mod(sod, 60), 2);
    string_of(out.as_slice())
}

} // verus!
