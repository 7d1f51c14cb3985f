//! Calendar dates and their day-number model.
//!
//! The review engine stores every date as a plain calendar triple
//! (year, month, day) and reasons about intervals through the date's *day
//! number*: its position in the proleptic Gregorian calendar, counted in
//! days, with 1 January of year 1 as day 1.  The calendar arithmetic that
//! turns a triple into a day number and back is delegated to chrono; the
//! uninterpreted function [`day_number_of`] names its result, and every
//! interval contract in the crate is stated over that name.
//!
//! The store's on-disk format renders dates with a four-digit year, so the
//! engine only accepts dates of years 0 through 9999 ([`in_store_range`]).

use chrono::Datelike;
use vstd::prelude::*;

verus! {

/// A calendar date in the proleptic Gregorian calendar.
#[derive(Clone, Copy, PartialEq, Eq, Structural, Debug)]
pub struct Date {
    pub year: i32,
    pub month: u8,
    pub day: u8,
}

/// The Gregorian leap-year rule.
pub open spec fn is_leap_year(y: int) -> bool {
    (y % 4 == 0 && y % 100 != 0) || y % 400 == 0
}

/// Number of days in the given month of the given year.
pub open spec fn days_in_month(y: int, m: int) -> int {
    if m == 2 {
        if is_leap_year(y) { 29 } else { 28 }
    } else if m == 4 || m == 6 || m == 9 || m == 11 {
        30
    } else {
        31
    }
}

/// The triple (y, m, d) denotes an existing calendar date.
pub open spec fn is_valid_ymd(y: int, m: int, d: int) -> bool {
    1 <= m <= 12 && 1 <= d <= days_in_month(y, m)
}

/// The date exists and its year fits the store's four-digit rendering.
pub open spec fn in_store_range(date: Date) -> bool {
    is_valid_ymd(date.year as int, date.month as int, date.day as int)
        && 0 <= date.year <= 9999
}

/// Day number of 1 January of year 0, the smallest date the store accepts.
pub const DAY_MIN: i64 = -365;
/// Day number of 31 December of year 9999, the largest date the store accepts.
pub const DAY_MAX: i64 = 3652059;

/// The date's position in the proleptic Gregorian calendar, in days,
/// with 1 January of year 1 as day 1.  Computed by chrono; named here so
/// that contracts can speak of calendar distances exactly.
pub uninterp spec fn day_number_of(y: int, m: int, d: int) -> int;

/// Day number of a date, as a spec-level shorthand.
pub open spec fn day_of(date: Date) -> int {
    day_number_of(date.year as int, date.month as int, date.day as int)
}

/// Dates ordered as calendar dates (lexicographic on year, month, day).
pub open spec fn date_le(a: Date, b: Date) -> bool {
    a.year < b.year
        || (a.year == b.year && a.month < b.month)
        || (a.year == b.year && a.month == b.month && a.day <= b.day)
}

/// Whether `a` is on or before `b` in calendar order.
pub fn date_le_exec(a: Date, b: Date) -> (r: bool)
    ensures
        r == date_le(a, b),
{
    a.year < b.year
        || (a.year == b.year && a.month < b.month)
        || (a.year == b.year && a.month == b.month && a.day <= b.day)
}

/// Relies on chrono's `NaiveDate::from_ymd_opt` and
/// `Datelike::num_days_from_ce`: for an existing calendar date the former
/// returns the date, and the latter counts the days since the start of the
/// proleptic Gregorian calendar, 1 January of year 1 being day 1.  Years 0
/// through 9999 lie well inside chrono's supported range, and their day
/// numbers lie between the day numbers of 1 January of year 0 and of
/// 31 December of year 9999.
#[verifier::external_body]
pub fn day_number(date: Date) -> (n: i64)
    requires
        in_store_range(date),
    ensures
        n == day_number_of(date.year as int, date.month as int, date.day as int),
        DAY_MIN <= n <= DAY_MAX,
{
    let d = chrono::NaiveDate::from_ymd_opt(date.year, date.month as u32, date.day as u32)
        .unwrap();
    d.num_days_from_ce() as i64
}

/// Relies on chrono's `NaiveDate::from_num_days_from_ce_opt` (the inverse of
/// `num_days_from_ce`, returning `None` only outside chrono's supported
/// range, which covers every day number between [`DAY_MIN`] and [`DAY_MAX`])
/// and on the `Datelike` accessors for the date's calendar fields.  A day
/// number lies between [`DAY_MIN`] and [`DAY_MAX`] exactly when its date
/// falls in years 0 through 9999.
#[verifier::external_body]
pub fn date_of_day_number(n: i64) -> (r: Option<Date>)
    ensures
        (r matches Some(d) ==> {
            &&& is_valid_ymd(d.year as int, d.month as int, d.day as int)
            &&& day_number_of(d.year as int, d.month as int, d.day as int) == n
            &&& (0 <= d.year <= 9999 <==> DAY_MIN <= n <= DAY_MAX)
        }),
        DAY_MIN <= n <= DAY_MAX ==> r.is_some(),
{
    let i: i32 = i32::try_from(n).ok()?;
    let d = chrono::NaiveDate::from_num_days_from_ce_opt(i)?;
    Some(Date { year: d.year(), month: d.month() as u8, day: d.day() as u8 })
}

} // verus!
