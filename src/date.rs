//! Calendar dates of the proleptic Gregorian calendar, and the stepping from
//! one payment date to the next.
use vstd::prelude::*;

use crate::frequency::PmtSchedule;
use chrono::{Datelike, NaiveDate};

verus! {

/// The earliest year a date can hold.
pub const MIN_YEAR: i32 = -262143;

/// The latest year a date can hold.
pub const MAX_YEAR: i32 = 262142;

/// A calendar date, by year, month (1 to 12) and day of the month.
#[derive(Clone, Copy, PartialEq, Eq, Debug, Structural)]
pub struct PmtDate {
    pub year: i32,
    pub month: u32,
    pub day: u32,
}

pub open spec fn is_leap_year(y: int) -> bool {
    (y % 4 == 0 && y % 100 != 0) || y % 400 == 0
}

pub open spec fn days_in_month(y: int, m: int) -> int {
    if m == 2 {
        if is_leap_year(y) {
            29
        } else {
            28
        }
    } else if m == 4 || m == 6 || m == 9 || m == 11 {
        30
    } else {
        31
    }
}

/// Days from the first of January of year 0 to the first of January of year `y`.
pub open spec fn days_before_year(y: int) -> int {
    365 * y + (y + 3) / 4 - (y + 99) / 100 + (y + 399) / 400
}

/// Days from the first of January to the first of month `m` of year `y`.
pub open spec fn days_before_month(y: int, m: int) -> int {
    let common = if m == 1 {
        0int
    } else if m == 2 {
        31
    } else if m == 3 {
        59
    } else if m == 4 {
        90
    } else if m == 5 {
        120
    } else if m == 6 {
        151
    } else if m == 7 {
        181
    } else if m == 8 {
        212
    } else if m == 9 {
        243
    } else if m == 10 {
        273
    } else if m == 11 {
        304
    } else {
        334
    };
    common + if m > 2 && is_leap_year(y) {
        1int
    } else {
        0int
    }
}

/// The number of a date in a count of days, which each next day increases by one.
pub open spec fn day_number(d: PmtDate) -> int {
    days_before_year(d.year as int) + days_before_month(d.year as int, d.month as int) + d.day - 1
}

/// The day after `d`.
pub open spec fn next_day(d: PmtDate) -> PmtDate {
    if d.day < days_in_month(d.year as int, d.month as int) {
        PmtDate { day: (d.day + 1) as u32, ..d }
    } else if d.month < 12 {
        PmtDate { year: d.year, month: (d.month + 1) as u32, day: 1 }
    } else {
        PmtDate { year: (d.year + 1) as i32, month: 1, day: 1 }
    }
}

/// The date `n` days after `d`.
pub open spec fn add_days_spec(d: PmtDate, n: nat) -> PmtDate
    decreases n,
{
    if n == 0 {
        d
    } else {
        next_day(add_days_spec(d, (n - 1) as nat))
    }
}

/// The date `n` calendar months after `d`, its day clamped to the end of the month.
pub open spec fn add_months_spec(d: PmtDate, n: nat) -> PmtDate {
    let t = d.year * 12 + (d.month - 1) + n;
    let y = t / 12;
    let m = t % 12 + 1;
    let dim = days_in_month(y, m);
    PmtDate { year: y as i32, month: m as u32, day: (if d.day <= dim { d.day as int } else { dim }) as u32 }
}

impl PmtDate {
    /// A real date within the range of years this library handles.
    pub open spec fn wf(self) -> bool {
        &&& MIN_YEAR <= self.year <= MAX_YEAR
        &&& 1 <= self.month <= 12
        &&& 1 <= self.day <= days_in_month(self.year as int, self.month as int)
    }

    /// The date of the given year, month and day, where there is one.
    pub fn new(year: i32, month: u32, day: u32) -> (r: Option<PmtDate>)
        ensures
            r is Some <==> (PmtDate { year, month, day }).wf(),
            r matches Some(d) ==> d == (PmtDate { year, month, day }),
    {
        from_ymd(year, month, day)
    }
}

/// The next payment date after `d` on schedule `s`: seven or fourteen days
/// later; on the 1st of the month the 15th, else the 1st of the next month;
/// or one, three, six or twelve months later, clamped to the end of the month.
pub open spec fn next_pmt_date_spec(d: PmtDate, s: PmtSchedule) -> PmtDate {
    match s {
        PmtSchedule::Weekly => add_days_spec(d, 7),
        PmtSchedule::Biweekly => add_days_spec(d, 14),
        PmtSchedule::SemiMonthly => if d.day == 1 {
            PmtDate { day: 15, ..d }
        } else if d.month == 12 {
            PmtDate { year: (d.year + 1) as i32, month: 1, day: 1 }
        } else {
            PmtDate { year: d.year, month: (d.month + 1) as u32, day: 1 }
        },
        PmtSchedule::Monthly => add_months_spec(d, 1),
        PmtSchedule::Quarterly => add_months_spec(d, 3),
        PmtSchedule::SemiAnnually => add_months_spec(d, 6),
        PmtSchedule::Annually => add_months_spec(d, 12),
    }
}

/// Relies on chrono's `NaiveDate::from_ymd_opt`: `Some` exactly for a real
/// date within its range of years, which is the range of `PmtDate`.
#[verifier::external_body]
fn from_ymd(year: i32, month: u32, day: u32) -> (r: Option<PmtDate>)
    ensures
        r is Some <==> (PmtDate { year, month, day }).wf(),
        r matches Some(d) ==> d == (PmtDate { year, month, day }),
{
    match NaiveDate::from_ymd_opt(year, month, day) {
        Some(nd) => Some(PmtDate { year: nd.year(), month: nd.month(), day: nd.day() }),
        None => None,
    }
}

/// Relies on chrono's `NaiveDate::checked_add_days`: the date `n` days later,
/// `None` only where it leaves chrono's range of years.
#[verifier::external_body]
fn add_days(d: PmtDate, n: u64) -> (r: Option<PmtDate>)
    requires
        d.wf(),
    ensures
        r matches Some(x) ==> x == add_days_spec(d, n as nat) && x.wf(),
        d.year < MAX_YEAR && n <= 31 ==> r is Some,
{
    let nd = NaiveDate::from_ymd_opt(d.year, d.month, d.day).unwrap();
    match nd.checked_add_days(chrono::Days::new(n)) {
        Some(x) => Some(PmtDate { year: x.year(), month: x.month(), day: x.day() }),
        None => None,
    }
}

/// Relies on chrono's `NaiveDate::checked_add_months`: `n` calendar months
/// later, the day clamped to the last of the month, `None` only where it
/// leaves chrono's range of years.
#[verifier::external_body]
fn add_months(d: PmtDate, n: u32) -> (r: Option<PmtDate>)
    requires
        d.wf(),
    ensures
        r matches Some(x) ==> x == add_months_spec(d, n as nat) && x.wf(),
        d.year < MAX_YEAR && n <= 12 ==> r is Some,
{
    let nd = NaiveDate::from_ymd_opt(d.year, d.month, d.day).unwrap();
    match nd.checked_add_months(chrono::Months::new(n)) {
        Some(x) => Some(PmtDate { year: x.year(), month: x.month(), day: x.day() }),
        None => None,
    }
}

/// Relies on chrono's `NaiveDate::signed_duration_since` and
/// `TimeDelta::num_days`: the whole days from `earlier` to `later`.
#[verifier::external_body]
pub(crate) fn days_between(later: PmtDate, earlier: PmtDate) -> (r: i64)
    requires
        later.wf(),
        earlier.wf(),
    ensures
        r == day_number(later) - day_number(earlier),
{
    let a = NaiveDate::from_ymd_opt(later.year, later.month, later.day).unwrap();
    let b = NaiveDate::from_ymd_opt(earlier.year, earlier.month, earlier.day).unwrap();
    a.signed_duration_since(b).num_days()
}

/// The payment date that follows `begin_date` on the given schedule.
pub fn get_next_pmt_date(begin_date: &PmtDate, pmt_schedule: &PmtSchedule) -> (r: PmtDate)
    requires
        begin_date.wf(),
        begin_date.year < MAX_YEAR,
    ensures
        r == next_pmt_date_spec(*begin_date, *pmt_schedule),
        r.wf(),
{
    let d = *begin_date;
    let end_date = match pmt_schedule {
        PmtSchedule::Weekly => add_days(d, 7),
        PmtSchedule::Biweekly => add_days(d, 14),
        PmtSchedule::SemiMonthly => {
            if d.day == 1 {
                from_ymd(d.year, d.month, 15)
            } else if d.month == 12 {
                from_ymd(d.year + 1, 1, 1)
            } else {
                from_ymd(d.year, d.month + 1, 1)
            }
        },
        PmtSchedule::Monthly => add_months(d, 1),
        PmtSchedule::Quarterly => add_months(d, 3),
        PmtSchedule::SemiAnnually => add_months(d, 6),
        PmtSchedule::Annually => add_months(d, 12),
    };
    match end_date {
        Some(x) => x,
        None => d,
    }
}

} // verus!
