use vstd::prelude::*;

verus! {

/// Gregorian leap-year rule.
pub open spec fn leap_year(year: int) -> bool {
    (year % 4 == 0 && year % 100 != 0) || year % 400 == 0
}

/// Whether `month` names a calendar month.
pub open spec fn valid_month(month: int) -> bool {
    1 <= month <= 12
}

/// Number of days of `month` in `year`; meaningful for valid months only.
pub open spec fn month_length(month: int, year: int) -> int {
    if month == 2 {
        if leap_year(year) { 29 } else { 28 }
    } else if month == 4 || month == 6 || month == 9 || month == 11 {
        30
    } else {
        31
    }
}

pub fn is_leap_year(year: i32) -> (r: bool)
    ensures
        r == leap_year(year as int),
{
    (year % 4 == 0 && year % 100 != 0) || year % 400 == 0
}

/// The number of days of a month, leap-year aware; `None` when `month` is
/// outside 1..=12.
pub fn days_in_month(month: i32, year: i32) -> (r: Option<i32>)
    ensures
        r.is_none() <==> !valid_month(month as int),
        r matches Some(n) ==> n == month_length(month as int, year as int),
{
    match month {
        1 | 3 | 5 | 7 | 8 | 10 | 12 => Some(31),
        4 | 6 | 9 | 11 => Some(30),
        2 => if is_leap_year(year) { Some(29) } else { Some(28) },
        _ => None,
    }
}

} // verus!
