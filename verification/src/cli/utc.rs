//! UTC calendar time from unix seconds, for the timestamps the CLI
//! writes (Howard Hinnant's days-to-civil algorithm).

use vstd::prelude::*;

verus! {

/// The 400-year era of a day count that starts on 0000-03-01: the floor
/// of the count over 146097 days.
pub open spec fn era_of(zs: int) -> int {
    zs / 146097
}

/// The civil `(year, month, day)` of a count of days since 1970-01-01.
pub open spec fn civil_date(z: int) -> (int, int, int) {
    let zs = z + 719468;
    let era = era_of(zs);
    let doe = zs - era * 146097;
    let yoe = (doe - doe / 1460 + doe / 36524 - doe / 146096) / 365;
    let y = yoe + era * 400;
    let doy = doe - (365 * yoe + yoe / 4 - yoe / 100);
    let mp = (5 * doy + 2) / 153;
    let day = doy - (153 * mp + 2) / 5 + 1;
    let month = if mp < 10 { mp + 3 } else { mp - 9 };
    let year = if month <= 2 { y + 1 } else { y };
    (year, month, day)
}

/// The UTC `(year, month, day, hour, minute, second)` of unix seconds:
/// the day is the floor of the seconds over 86400, the time of day what
/// remains of it.
pub open spec fn civil_of(secs: int) -> (int, int, int, int, int, int) {
    let d = civil_date(secs / 86400);
    let s = secs % 86400;
    (d.0, d.1, d.2, s / 3600, (s % 3600) / 60, s % 60)
}

proof fn lemma_era(zs: int)
    ensures
        0 <= zs - era_of(zs) * 146097 < 146097,
{
    assert(0 <= zs - (zs / 146097) * 146097 < 146097) by (nonlinear_arith);
}

/// The civil date of a day count, on counts far inside `i64`.
fn civil_from_days(z: i64) -> (r: (i64, i64, i64))
    requires
        -0x1_0000_0000_0000 <= z <= 0x1_0000_0000_0000,
    ensures
        (r.0 as int, r.1 as int, r.2 as int) == civil_date(z as int),
{
    let z_shift = z + 719468;
    let era: i64 = match z_shift.checked_div_euclid(146097) {
        Some(v) => v,
        None => 0,
    };
    proof {
        lemma_era(z_shift as int);
    }
    assert(era == era_of(z_shift as int));
    assert(-0x1_0000_0000_0000 <= era <= 0x1_0000_0000_0000) by (nonlinear_arith)
        requires
            0 <= z_shift - era * 146097 < 146097,
            -0x1_0000_0000_0000 <= z_shift <= 0x1_0000_0000_0000 + 719468,
    ;
    let doe: i64 = z_shift - era * 146097;
    let yoe = (doe - doe / 1460 + doe / 36524 - doe / 146096) / 365;
    let y = yoe + era * 400;
    let doy = doe - (365 * yoe + yoe / 4 - yoe / 100);
    let mp = (5 * doy + 2) / 153;
    let day = doy - (153 * mp + 2) / 5 + 1;
    let month = if mp < 10 { mp + 3 } else { mp - 9 };
    let year = if month <= 2 { y + 1 } else { y };
    (year, month, day)
}

/// Unix seconds as UTC year, month, day, hour, minute and second.
pub fn ymdhms_from_unix(secs: i64) -> (r: (i64, i64, i64, i64, i64, i64))
    ensures
        (r.0 as int, r.1 as int, r.2 as int, r.3 as int, r.4 as int, r.5 as int) == civil_of(
            secs as int,
        ),
{
    let z: i64 = match secs.checked_div_euclid(86400) {
        Some(v) => v,
        None => 0,
    };
    assert(z == secs / 86400);
    let s: i64 = match secs.checked_rem_euclid(86400) {
        Some(v) => v,
        None => 0,
    };
    assert(s == secs % 86400);
    let (year, month, day) = civil_from_days(z);
    (year, month, day, s / 3600, (s % 3600) / 60, s % 60)
}

proof fn lemma_doy(doe: int)
    requires
        0 <= doe < 146097,
    ensures
        ({
            let yoe = (doe - doe / 1460 + doe / 36524 - doe / 146096) / 365;
            let doy = doe - (365 * yoe + yoe / 4 - yoe / 100);
            0 <= doy < 366
        }),
{
    let a = doe / 1460;
    let b = doe / 36524;
    let c = doe / 146096;
    assert(a * 1460 <= doe < a * 1460 + 1460) by (nonlinear_arith)
        requires a == doe / 1460, doe >= 0;
    assert(b * 36524 <= doe < b * 36524 + 36524) by (nonlinear_arith)
        requires b == doe / 36524, doe >= 0;
    assert(c * 146096 <= doe < c * 146096 + 146096) by (nonlinear_arith)
        requires c == doe / 146096, doe >= 0;
    let t = doe - a + b - c;
    let yoe = t / 365;
    assert(yoe * 365 <= t < yoe * 365 + 365) by (nonlinear_arith)
        requires yoe == t / 365, t >= 0;
    let d = yoe / 4;
    let e = yoe / 100;
    assert(d * 4 <= yoe < d * 4 + 4) by (nonlinear_arith)
        requires d == yoe / 4, yoe >= 0;
    assert(e * 100 <= yoe < e * 100 + 100) by (nonlinear_arith)
        requires e == yoe / 100, yoe >= 0;
    assert(0 <= doe - (365 * yoe + d - e) < 366) by (nonlinear_arith)
        requires
            a * 1460 <= doe < a * 1460 + 1460,
            b * 36524 <= doe < b * 36524 + 36524,
            c * 146096 <= doe < c * 146096 + 146096,
            0 <= doe < 146097,
            t == doe - a + b - c,
            yoe * 365 <= t < yoe * 365 + 365,
            d * 4 <= yoe < d * 4 + 4,
            e * 100 <= yoe < e * 100 + 100,
    ;
}

/// Every unix time reads as a clock time and a calendar day: the hour
/// below 24, the minute and second below 60, the month from 1 to 12 and
/// the day from 1 to 31; and the clock time is the seconds since the
/// day's midnight, that midnight being the floor of the seconds to whole
/// days.
pub proof fn law_civil_in_range(secs: int)
    ensures
        (secs / 86400) * 86400 + civil_of(secs).3 * 3600 + civil_of(secs).4 * 60 + civil_of(secs).5
            == secs,
        0 <= civil_of(secs).3 < 24,
        0 <= civil_of(secs).4 < 60,
        0 <= civil_of(secs).5 < 60,
        1 <= civil_of(secs).1 <= 12,
        1 <= civil_of(secs).2 <= 31,
{
    let r = secs % 86400;
    vstd::arithmetic::div_mod::lemma_fundamental_div_mod(secs, 86400);
    vstd::arithmetic::div_mod::lemma_mod_bound(secs, 86400);
    assert((r / 3600) * 3600 + ((r % 3600) / 60) * 60 + r % 60 == r) by (nonlinear_arith)
        requires
            0 <= r < 86400,
    ;
    let zs = secs / 86400 + 719468;
    lemma_era(zs);
    let doe = zs - era_of(zs) * 146097;
    lemma_doy(doe);
    let yoe = (doe - doe / 1460 + doe / 36524 - doe / 146096) / 365;
    let doy = doe - (365 * yoe + yoe / 4 - yoe / 100);
    let mp = (5 * doy + 2) / 153;
    assert(0 <= mp < 12 && 1 <= doy - (153 * mp + 2) / 5 + 1 <= 31) by (nonlinear_arith)
        requires
            0 <= doy < 366,
            mp == (5 * doy + 2) / 153,
    ;
}

} // verus!
