//! UTC calendar dates from seconds since the Unix epoch.
use crate::text::{push_str, string_of, zero_pad, zero_padded};
use std::time::{Duration, SystemTime, SystemTimeError};
use vstd::prelude::*;

verus! {

#[verifier::external_type_specification]
#[verifier::external_body]
pub struct ExSystemTime(SystemTime);

#[verifier::external_type_specification]
#[verifier::external_body]
pub struct ExSystemTimeError(SystemTimeError);

/// The duration from the Unix epoch to `t`, or none when `t` is before it:
/// what `SystemTime::duration_since(UNIX_EPOCH)` gives for `t`.
pub uninterp spec fn epoch_duration(t: SystemTime) -> Option<Duration>;

/// The whole seconds of a duration: what `Duration::as_secs` gives.
pub uninterp spec fn duration_whole_secs(d: Duration) -> u64;

/// Whole seconds from the Unix epoch to `t`, or none before it.
pub open spec fn epoch_secs(t: SystemTime) -> Option<u64> {
    match epoch_duration(t) {
        Some(d) => Some(duration_whole_secs(d)),
        None => None,
    }
}

/// Calls `SystemTime::duration_since(UNIX_EPOCH)`: the duration since the
/// epoch, an error exactly when `time` is before it (the error itself is
/// not described).
#[verifier::external_body]
fn since_epoch(time: &SystemTime) -> (r: Result<Duration, SystemTimeError>)
    ensures
        match r {
            Ok(d) => epoch_duration(*time) == Some(d),
            Err(_) => epoch_duration(*time) is None,
        },
{
    time.duration_since(std::time::UNIX_EPOCH)
}

/// Calls `Duration::as_secs`: the whole seconds of `d`.
#[verifier::external_body]
fn whole_secs(d: &Duration) -> (r: u64)
    ensures
        r == duration_whole_secs(*d),
{
    d.as_secs()
}

/// Whole seconds from the Unix epoch to `time`, or an error before it.
pub fn secs_since_epoch(time: SystemTime) -> (r: Result<u64, String>)
    ensures
        match epoch_secs(time) {
            Some(s) => r == Ok::<u64, String>(s),
            None => r matches Err(e) && e@ == "system time is before Unix epoch"@,
        },
{
    match since_epoch(&time) {
        Ok(d) => Ok(whole_secs(&d)),
        Err(_) => {
            let e = "system time is before Unix epoch".to_owned();
            proof {
                reveal_strlit("system time is before Unix epoch");
            }
            Err(e)
        },
    }
}

/// The proleptic Gregorian date `days` after 1970-01-01, as
/// `(year, month, day)` (Howard Hinnant's `civil_from_days`).
pub open spec fn civil(days: int) -> (int, int, int) {
    let z = days + 719_468;
    let era = z / 146_097;
    let doe = z - era * 146_097;
    let yoe = (doe - doe / 1_460 + doe / 36_524 - doe / 146_096) / 365;
    let doy = doe - (365 * yoe + yoe / 4 - yoe / 100);
    let mp = (5 * doy + 2) / 153;
    let d = doy - (153 * mp + 2) / 5 + 1;
    let m = if mp < 10 {
        mp + 3
    } else {
        mp - 9
    };
    let y = yoe + era * 400 + if m <= 2 {
        1int
    } else {
        0int
    };
    (y, m, d)
}

/// Every day maps to a month in `1..=12` and a day of month in `1..=31`.
pub proof fn lemma_civil_ranges(days: int)
    ensures
        1 <= civil(days).1 <= 12,
        1 <= civil(days).2 <= 31,
{
    let z = days + 719_468;
    let era = z / 146_097;
    let doe = z - era * 146_097;
    assert(0 <= doe < 146_097) by (nonlinear_arith)
        requires
            era == z / 146_097,
            doe == z - era * 146_097,
    ;
    let yoe = (doe - doe / 1_460 + doe / 36_524 - doe / 146_096) / 365;
    assert(0 <= yoe <= 399) by (nonlinear_arith)
        requires
            0 <= doe < 146_097,
            yoe == (doe - doe / 1_460 + doe / 36_524 - doe / 146_096) / 365,
    ;
    let doy = doe - (365 * yoe + yoe / 4 - yoe / 100);
    assert(0 <= doy <= 365) by (nonlinear_arith)
        requires
            0 <= doe < 146_097,
            yoe == (doe - doe / 1_460 + doe / 36_524 - doe / 146_096) / 365,
            doy == doe - (365 * yoe + yoe / 4 - yoe / 100),
    {
        lemma_doy_range(doe);
    }
    let mp = (5 * doy + 2) / 153;
    assert(0 <= mp <= 11) by (nonlinear_arith)
        requires
            0 <= doy <= 365,
            mp == (5 * doy + 2) / 153,
    ;
    let d = doy - (153 * mp + 2) / 5 + 1;
    assert(1 <= d <= 31) by (nonlinear_arith)
        requires
            0 <= doy <= 365,
            mp == (5 * doy + 2) / 153,
            d == doy - (153 * mp + 2) / 5 + 1,
    ;
}

/// The day number of a proleptic Gregorian date (`days_from_civil`), the
/// inverse of [`civil`].
pub open spec fn days_from_civil(y: int, m: int, d: int) -> int {
    let y2 = if m <= 2 {
        y - 1
    } else {
        y
    };
    let era = y2 / 400;
    let yoe = y2 - era * 400;
    let mp = if m > 2 {
        m - 3
    } else {
        m + 9
    };
    let doy = (153 * mp + 2) / 5 + d - 1;
    let doe = yoe * 365 + yoe / 4 - yoe / 100 + doy;
    era * 146_097 + doe - 719_468
}

/// Converting a day number to a date and back gives the same day number:
/// distinct days never share a date.
pub proof fn lemma_civil_round_trip(days: int)
    ensures
        days_from_civil(civil(days).0, civil(days).1, civil(days).2) == days,
{
    let z = days + 719_468;
    let era = z / 146_097;
    let doe = z - era * 146_097;
    assert(0 <= doe < 146_097 && z == era * 146_097 + doe) by (nonlinear_arith)
        requires
            era == z / 146_097,
            doe == z - era * 146_097,
    ;
    let yoe = (doe - doe / 1_460 + doe / 36_524 - doe / 146_096) / 365;
    assert(0 <= yoe <= 399) by (nonlinear_arith)
        requires
            0 <= doe < 146_097,
            yoe == (doe - doe / 1_460 + doe / 36_524 - doe / 146_096) / 365,
    ;
    lemma_doy_range(doe);
    let doy = doe - (365 * yoe + yoe / 4 - yoe / 100);
    let mp = (5 * doy + 2) / 153;
    assert(0 <= mp <= 11) by (nonlinear_arith)
        requires
            0 <= doy <= 365,
            mp == (5 * doy + 2) / 153,
    ;
    let d = doy - (153 * mp + 2) / 5 + 1;
    let m = if mp < 10 {
        mp + 3
    } else {
        mp - 9
    };
    let y = yoe + era * 400 + if m <= 2 {
        1int
    } else {
        0int
    };
    let y2 = if m <= 2 {
        y - 1
    } else {
        y
    };
    assert(y2 == yoe + era * 400);
    assert(y2 / 400 == era) by (nonlinear_arith)
        requires
            y2 == yoe + era * 400,
            0 <= yoe <= 399,
    ;
    let mp2 = if m > 2 {
        m - 3
    } else {
        m + 9
    };
    assert(mp2 == mp);
    assert(civil(days) == (y, m, d));
}

/// The day of the era's year lies in `0..=365`, checked over the whole era.
proof fn lemma_doy_range(doe: int)
    requires
        0 <= doe < 146_097,
    ensures
        ({
            let yoe = (doe - doe / 1_460 + doe / 36_524 - doe / 146_096) / 365;
            let doy = doe - (365 * yoe + yoe / 4 - yoe / 100);
            0 <= doy <= 365
        }),
{
    let q1 = doe / 1_460;
    let q2 = doe / 36_524;
    let q3 = doe / 146_096;
    let a = doe - q1 + q2 - q3;
    let yoe = a / 365;
    assert(0 <= q3 <= 1 && 0 <= q2 <= 4 && 0 <= q1 <= 100) by (nonlinear_arith)
        requires
            0 <= doe < 146_097,
            q1 == doe / 1_460,
            q2 == doe / 36_524,
            q3 == doe / 146_096,
    ;
    assert(doe == 1_460 * q1 + doe % 1_460) by (nonlinear_arith)
        requires
            q1 == doe / 1_460,
            0 <= doe,
    ;
    assert(doe == 36_524 * q2 + doe % 36_524) by (nonlinear_arith)
        requires
            q2 == doe / 36_524,
            0 <= doe,
    ;
    assert(doe == 146_096 * q3 + doe % 146_096) by (nonlinear_arith)
        requires
            q3 == doe / 146_096,
            0 <= doe,
    ;
    assert(a == 365 * yoe + a % 365) by (nonlinear_arith)
        requires
            yoe == a / 365,
            a >= 0,
    ;
    let y4 = yoe / 4;
    let y100 = yoe / 100;
    assert(yoe == 4 * y4 + yoe % 4 && yoe == 100 * y100 + yoe % 100) by (nonlinear_arith)
        requires
            y4 == yoe / 4,
            y100 == yoe / 100,
            yoe >= 0,
    ;
}

pub fn civil_from_days(days_since_epoch: i64) -> (r: (i32, u32, u32))
    requires
        -9_000_000_000_000_000 <= days_since_epoch <= 9_000_000_000_000_000,
    ensures
        r.0 == civil(days_since_epoch as int).0 as i32,
        r.1 as int == civil(days_since_epoch as int).1,
        r.2 as int == civil(days_since_epoch as int).2,
{
    let z: i64 = days_since_epoch + 719_468;
    let era: i64 = if z >= 0 {
        z / 146_097
    } else {
        -((146_096 - z) / 146_097)
    };
    assert(era == z as int / 146_097) by (nonlinear_arith)
        requires
            z >= 0 ==> era == z / 146_097,
            z < 0 ==> era == -((146_096 - z) / 146_097),
    ;
    let day_of_era: i64 = z - era * 146_097;
    assert(0 <= day_of_era < 146_097) by (nonlinear_arith)
        requires
            era == z as int / 146_097,
            day_of_era == z - era * 146_097,
    ;
    let year_of_era: i64 = (day_of_era - day_of_era / 1_460 + day_of_era / 36_524 - day_of_era
        / 146_096) / 365;
    assert(0 <= year_of_era <= 400) by (nonlinear_arith)
        requires
            0 <= day_of_era < 146_097,
            year_of_era == (day_of_era - day_of_era / 1_460 + day_of_era / 36_524 - day_of_era
                / 146_096) / 365,
    ;
    proof {
        lemma_doy_range(day_of_era as int);
    }
    let year: i64 = year_of_era + era * 400;
    let day_of_year: i64 = day_of_era - (365 * year_of_era + year_of_era / 4 - year_of_era / 100);
    let month_prime: i64 = (5 * day_of_year + 2) / 153;
    assert(0 <= month_prime <= 11) by (nonlinear_arith)
        requires
            0 <= day_of_year <= 365,
            month_prime == (5 * day_of_year + 2) / 153,
    ;
    let day: i64 = day_of_year - (153 * month_prime + 2) / 5 + 1;
    assert(1 <= day <= 31) by (nonlinear_arith)
        requires
            0 <= day_of_year <= 365,
            month_prime == (5 * day_of_year + 2) / 153,
            day == day_of_year - (153 * month_prime + 2) / 5 + 1,
    ;
    let month: i64 = month_prime + if month_prime < 10 {
        3
    } else {
        -9
    };
    let year: i64 = year + if month <= 2 {
        1
    } else {
        0
    };
    (year as i32, month as u32, day as u32)
}

/// `YYYY-MM-DD` of the UTC day holding second `secs` after the epoch.
pub open spec fn utc_date_text(secs: nat) -> Seq<char> {
    let c = civil((secs / 86_400) as int);
    let y = c.0 as i32;
    zero_pad_signed(y as int, 4) + seq!['-'] + zero_pad(c.1 as nat, 2) + seq!['-'] + zero_pad(
        c.2 as nat,
        2,
    )
}

/// `format!("{:04}", y)` for a possibly negative `y`.
pub open spec fn zero_pad_signed(y: int, w: nat) -> Seq<char> {
    if y >= 0 {
        zero_pad(y as nat, w)
    } else {
        seq!['-'] + zero_pad((-y) as nat, if w >= 1 {
            (w - 1) as nat
        } else {
            0
        })
    }
}

fn push_signed_padded(out: &mut Vec<char>, y: i32, w: usize)
    requires
        w >= 1,
    ensures
        final(out)@ == old(out)@ + zero_pad_signed(y as int, w as nat),
{
    if y >= 0 {
        let p = zero_padded(y as u64, w);
        crate::text::append(out, p.as_slice());
    } else {
        out.push('-');
        let mag: u64 = (-(y as i64)) as u64;
        let p = zero_padded(mag, w - 1);
        crate::text::append(out, p.as_slice());
    }
}

/// The UTC calendar date of second `secs` after the epoch, as `YYYY-MM-DD`.
pub fn utc_date_from_secs(secs: u64) -> (r: String)
    ensures
        r@ == utc_date_text(secs as nat),
{
    let days = (secs / 86_400) as i64;
    let (year, month, day) = civil_from_days(days);
    let mut out: Vec<char> = Vec::new();
    push_signed_padded(&mut out, year, 4);
    out.push('-');
    let m = zero_padded(month as u64, 2);
    crate::text::append(&mut out, m.as_slice());
    out.push('-');
    let d = zero_padded(day as u64, 2);
    crate::text::append(&mut out, d.as_slice());
    assert(out@ =~= utc_date_text(secs as nat));
    string_of(out.as_slice())
}

/// Format the UTC calendar date of `time` as `YYYY-MM-DD`.
pub fn today_utc(time: SystemTime) -> (r: Result<String, String>)
    ensures
        match epoch_secs(time) {
            Some(secs) => r matches Ok(t) && t@ == utc_date_text(secs as nat),
            None => r matches Err(e) && e@ == "system time is before Unix epoch"@,
        },
{
    match secs_since_epoch(time) {
        Ok(secs) => Ok(utc_date_from_secs(secs)),
        Err(e) => Err(e),
    }
}

} // verus!
