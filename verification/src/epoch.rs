use vstd::prelude::*;

verus! {

/// Smallest year `chrono::NaiveDate` can represent; earlier dates count as
/// invalid here and map to the -1 sentinel.
pub const MIN_YEAR: i64 = -262143;

/// Largest year `chrono::NaiveDate` can represent; later dates count as
/// invalid here and map to the -1 sentinel.
pub const MAX_YEAR: i64 = 262142;

/// Gregorian leap-year rule, applied prolepticly to every year.
pub open spec fn is_leap_year(y: int) -> bool {
    (y % 4 == 0 && y % 100 != 0) || y % 400 == 0
}

/// Number of days in month `m` of year `y` (only meaningful for `1 <= m <= 12`).
pub open spec fn days_in_month(y: int, m: int) -> int {
    if m == 2 {
        if is_leap_year(y) {
            29
        } else {
            28
        }
    } else if m == 4 || m == 6 || m == 9 || m == 11 {
        30
    } else {
        31
    }
}

/// The triple names a real proleptic-Gregorian calendar day within the
/// representable year range.
pub open spec fn is_valid_date(y: int, m: int, d: int) -> bool {
    &&& MIN_YEAR <= y <= MAX_YEAR
    &&& 1 <= m <= 12
    &&& 1 <= d <= days_in_month(y, m)
}

/// Days from the Unix epoch (1970-01-01) to the given calendar day, negative
/// for earlier days: the standard civil-calendar day count, written over
/// 400-year eras (146097 days each; 719468 days lie between 0000-03-01 and
/// 1970-01-01).
pub open spec fn days_from_unix_epoch(y: int, m: int, d: int) -> int {
    let yy = if m <= 2 {
        y - 1
    } else {
        y
    };
    let era = yy / 400;
    let yoe = yy - era * 400;
    let mp = if m > 2 {
        m - 3
    } else {
        m + 9
    };
    let doy = (153 * mp + 2) / 5 + d - 1;
    let doe = yoe * 365 + yoe / 4 - yoe / 100 + doy;
    era * 146097 + doe - 719468
}

/// Seconds since the Unix epoch at midnight UTC of the given calendar day.
pub open spec fn epoch_seconds(y: int, m: int, d: int) -> int {
    86400 * days_from_unix_epoch(y, m, d)
}

/// What the epoch converter returns: the timestamp of midnight UTC for a
/// valid date, the -1 sentinel for anything else. Callers must treat -1 as
/// "unknown time", not as one second before the epoch.
pub open spec fn epoch_time_of(y: int, m: int, d: int) -> int {
    if is_valid_date(y, m, d) {
        epoch_seconds(y, m, d)
    } else {
        -1
    }
}

/// Relies on `chrono::NaiveDate::from_ymd_opt`, `NaiveDate::and_hms_opt`,
/// `NaiveDateTime::and_utc` and `DateTime::timestamp`: `from_ymd_opt` returns
/// `Some` exactly for proleptic-Gregorian calendar days whose year the type
/// can represent, `and_hms_opt(0, 0, 0)` always succeeds, and `timestamp` of
/// midnight UTC counts the seconds since 1970-01-01T00:00:00Z.
#[verifier::external_body]
fn chrono_midnight_timestamp(year: i32, month: u32, day: u32) -> (r: Option<i64>)
    ensures
        r is Some <==> is_valid_date(year as int, month as int, day as int),
        r is Some ==> r->0 == epoch_seconds(year as int, month as int, day as int),
{
    match chrono::NaiveDate::from_ymd_opt(year, month, day) {
        Some(date) => Some(date.and_hms_opt(0, 0, 0).unwrap().and_utc().timestamp()),
        None => None,
    }
}

/// Calendar date to canonical time: seconds since the Unix epoch at midnight
/// UTC when the triple is a valid date, -1 otherwise.
pub fn calc_epoch_time(year: i64, month: i64, day: i64) -> (r: i64)
    ensures
        r as int == epoch_time_of(year as int, month as int, day as int),
{
    if year < MIN_YEAR || year > MAX_YEAR || month < 1 || month > 12 || day < 1 || day > 31 {
        return -1;
    }
    match chrono_midnight_timestamp(year as i32, month as u32, day as u32) {
        Some(t) => t,
        None => -1,
    }
}

} // verus!
