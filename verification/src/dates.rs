//! Calendar dates as plain year/month/day triples, and the one
//! computation delegated to the `chrono` crate: the signed number of
//! days between two dates, used for a deadline's "days left".

use vstd::prelude::*;

verus! {

pub open spec fn is_leap_year(y: int) -> bool {
    (y % 4 == 0 && y % 100 != 0) || y % 400 == 0
}

pub open spec fn days_in_month(y: int, m: int) -> int {
    if m == 2 {
        if is_leap_year(y) {
            29
        } else {
            28
        }
    } else if m == 4 || m == 6 || m == 9 || m == 11 {
        30
    } else {
        31
    }
}

/// A real proleptic-Gregorian calendar date.
pub open spec fn valid_date(y: int, m: int, d: int) -> bool {
    &&& 1 <= m <= 12
    &&& 1 <= d <= days_in_month(y, m)
}

pub fn leap_year(y: i32) -> (r: bool)
    ensures
        r == is_leap_year(y as int),
{
    (y % 4 == 0 && y % 100 != 0) || y % 400 == 0
}

pub fn month_length(y: i32, m: u32) -> (r: u32)
    requires
        1 <= m <= 12,
    ensures
        r == days_in_month(y as int, m as int),
{
    if m == 2 {
        if leap_year(y) {
            29
        } else {
            28
        }
    } else if m == 4 || m == 6 || m == 9 || m == 11 {
        30
    } else {
        31
    }
}

/// The (uninterpreted) day number of a calendar date: two dates'
/// numbers differ by exactly the number of days between them.
pub uninterp spec fn day_number(y: int, m: int, d: int) -> int;

/// Relies on `chrono::NaiveDate`: `from_ymd_opt` is `Some` for every
/// real calendar date in range, and `signed_duration_since` followed
/// by `num_days` yields the signed whole-day difference of the two
/// dates, a function of the two dates alone.
#[verifier::external_body]
pub fn days_between(y1: i32, m1: u32, d1: u32, y2: i32, m2: u32, d2: u32) -> (r: i64)
    requires
        0 <= y1 <= 9999,
        valid_date(y1 as int, m1 as int, d1 as int),
        0 <= y2 <= 9999,
        valid_date(y2 as int, m2 as int, d2 as int),
    ensures
        r == day_number(y1 as int, m1 as int, d1 as int) - day_number(
            y2 as int,
            m2 as int,
            d2 as int,
        ),
{
    let a = chrono::NaiveDate::from_ymd_opt(y1, m1, d1).unwrap();
    let b = chrono::NaiveDate::from_ymd_opt(y2, m2, d2).unwrap();
    a.signed_duration_since(b).num_days()
}

} // verus!
