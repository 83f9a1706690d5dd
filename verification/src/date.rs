//! Calendar dates.

use vstd::prelude::*;
use vstd::string::*;

use crate::text::{decimal, pad_zeros, push_decimal, zero_padded};

verus! {

/// The year has a 29th of February.
pub open spec fn is_leap(year: nat) -> bool {
    year % 4 == 0 && (year % 100 != 0 || year % 400 == 0)
}

/// The number of days of a year.
pub open spec fn year_days(year: nat) -> nat {
    if is_leap(year) {
        366
    } else {
        365
    }
}

/// The number of days of a month.
pub open spec fn month_days(year: nat, month: nat) -> nat {
    if month == 2 {
        if is_leap(year) {
            29
        } else {
            28
        }
    } else if month == 4 || month == 6 || month == 9 || month == 11 {
        30
    } else {
        31
    }
}

/// The number of days from the beginning of 1970 to the beginning of a year.
pub open spec fn days_to_year(year: nat) -> nat
    decreases year,
{
    if year <= 1970 {
        0
    } else {
        days_to_year((year - 1) as nat) + year_days((year - 1) as nat)
    }
}

/// The number of days from the beginning of a year to the beginning of a month.
pub open spec fn days_to_month(year: nat, month: nat) -> nat
    decreases month,
{
    if month <= 1 {
        0
    } else {
        days_to_month(year, (month - 1) as nat) + month_days(year, (month - 1) as nat)
    }
}

/// A date of the Gregorian calendar from 1970 on.
#[derive(Clone, Copy, Debug, PartialEq, Eq, Structural)]
pub struct Date {
    pub year: u64,
    pub month: u64,
    pub day: u64,
}

impl Date {
    /// The date exists.
    pub open spec fn wf(self) -> bool {
        self.year >= 1970 && 1 <= self.month <= 12 && 1 <= self.day <= month_days(
            self.year as nat,
            self.month as nat,
        )
    }

    /// The number of days from the beginning of 1970 to the date.
    pub open spec fn day_number(self) -> nat {
        (days_to_year(self.year as nat) + days_to_month(self.year as nat, self.month as nat)
            + self.day - 1) as nat
    }

    /// The date as year, month and day.
    pub open spec fn text(self) -> Seq<char> {
        zero_padded(decimal(self.year as nat), 4) + "-"@ + zero_padded(
            decimal(self.month as nat),
            2,
        ) + "-"@ + zero_padded(decimal(self.day as nat), 2)
    }
}

proof fn lemma_year_months(year: nat)
    ensures
        days_to_month(year, 13) == year_days(year),
{
    reveal_with_fuel(days_to_month, 13);
}

proof fn lemma_years_ascend(a: nat, b: nat)
    requires
        1970 <= a < b,
    ensures
        days_to_year(a) + year_days(a) <= days_to_year(b),
    decreases b - a,
{
    if a + 1 < b {
        lemma_years_ascend(a, (b - 1) as nat);
    }
}

proof fn lemma_months_ascend(year: nat, a: nat, b: nat)
    requires
        1 <= a < b,
    ensures
        days_to_month(year, a) + month_days(year, a) <= days_to_month(year, b),
    decreases b - a,
{
    if a + 1 < b {
        lemma_months_ascend(year, a, (b - 1) as nat);
    }
}

/// A day has only one date.
pub proof fn law_date_unique(a: Date, b: Date)
    requires
        a.wf(),
        b.wf(),
        a.day_number() == b.day_number(),
    ensures
        a == b,
{
    law_dates_ascend(a, b);
    law_dates_ascend(b, a);
}

/// A later date, by year, month and day, has a greater day number.
pub proof fn law_dates_ascend(a: Date, b: Date)
    requires
        a.wf(),
        b.wf(),
    ensures
        a.year < b.year || (a.year == b.year && (a.month < b.month || (a.month == b.month && a.day
            < b.day))) ==> a.day_number() < b.day_number(),
{
    if a.year < b.year {
        lemma_years_ascend(a.year as nat, b.year as nat);
        lemma_year_months(a.year as nat);
        if a.month < 13 {
            lemma_months_ascend(a.year as nat, a.month as nat, 13);
        }
    } else if a.year == b.year && a.month < b.month {
        lemma_months_ascend(a.year as nat, a.month as nat, b.month as nat);
    }
}

fn leap(year: u64) -> (r: bool)
    ensures
        r == is_leap(year as nat),
{
    year % 4 == 0 && (year % 100 != 0 || year % 400 == 0)
}

fn days_of_month(year: u64, month: u64) -> (r: u64)
    ensures
        r == month_days(year as nat, month as nat),
{
    if month == 2 {
        if leap(year) {
            29
        } else {
            28
        }
    } else if month == 4 || month == 6 || month == 9 || month == 11 {
        30
    } else {
        31
    }
}

/// The date of a day, counted from the first of January 1970.
pub fn date_of_day(days: u32) -> (r: Date)
    ensures
        r.wf(),
        r.day_number() == days,
{
    let mut rest: u64 = days as u64;
    let mut year: u64 = 1970;
    while rest >= 366 || (rest >= 365 && !leap(year))
        invariant
            year >= 1970,
            year + rest <= 1970 + days,
            days_to_year(year as nat) + rest == days,
        decreases rest,
    {
        let len: u64 = if leap(year) {
            366
        } else {
            365
        };
        rest = rest - len;
        year = year + 1;
    }
    assert(rest < year_days(year as nat));
    let mut month: u64 = 1;
    while month < 12 && rest >= days_of_month(year, month)
        invariant
            1 <= month <= 12,
            days_to_year(year as nat) + days_to_month(year as nat, month as nat) + rest == days,
            days_to_month(year as nat, month as nat) + rest < year_days(year as nat),
        decreases 12 - month,
    {
        rest = rest - days_of_month(year, month);
        month = month + 1;
    }
    proof {
        lemma_year_months(year as nat);
        if month == 12 {
            assert(days_to_month(year as nat, 13) == days_to_month(year as nat, 12) + month_days(
                year as nat,
                12,
            ));
        }
    }
    Date { year, month, day: rest + 1 }
}

fn number_text(n: u64) -> (r: String)
    ensures
        r@ == decimal(n as nat),
{
    let mut out = String::new();
    push_decimal(&mut out, n as u128);
    assert(out@ =~= decimal(n as nat));
    out
}

/// The date of a moment, counted in seconds from the beginning of 1970, as text.
pub fn today_string(seconds: u64) -> (r: String)
    requires
        seconds / 86400 <= u32::MAX,
    ensures
        exists|d: Date| #[trigger] d.wf() && d.day_number() == seconds / 86400 && r@ == d.text(),
{
    let days: u64 = seconds / 86400;
    let d = date_of_day(days as u32);
    let mut out = pad_zeros(number_text(d.year).as_str(), 4);
    out.append("-");
    out.append(pad_zeros(number_text(d.month).as_str(), 2).as_str());
    out.append("-");
    out.append(pad_zeros(number_text(d.day).as_str(), 2).as_str());
    assert(d.wf());
    out
}

}
