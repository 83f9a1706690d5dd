//! What the calendar is.

use vstd::prelude::*;

use crate::date::{days_to_month, days_to_year, is_leap, month_days, year_days, Date};
use crate::laws::text::{digits_value, law_decimal, law_zero_padded};
use crate::text::{decimal, zero_padded};

verus! {

/// How many leap years there are up to a year: every fourth, but not every hundredth, but every
/// four hundredth.
pub open spec fn leap_years_up_to(year: int) -> int {
    year / 4 - year / 100 + year / 400
}

/// The days before a year are 365 for each year from 1970 on, and one more for each leap year
/// among them.
pub proof fn law_days_to_year(year: nat)
    requires
        year >= 1970,
    ensures
        days_to_year(year) == 365 * (year - 1970) + leap_years_up_to(year - 1) - leap_years_up_to(
            1969,
        ),
        year_days(year) == 365 + leap_years_up_to(year as int) - leap_years_up_to(year - 1),
    decreases year,
{
    if year > 1970 {
        law_days_to_year((year - 1) as nat);
    }
}

/// The months of a year are as long as they are, and together they make the year.
pub proof fn law_months(year: nat)
    ensures
        month_days(year, 1) == 31,
        month_days(year, 2) == year_days(year) - 337,
        month_days(year, 3) == 31,
        month_days(year, 4) == 30,
        month_days(year, 5) == 31,
        month_days(year, 6) == 30,
        month_days(year, 7) == 31,
        month_days(year, 8) == 31,
        month_days(year, 9) == 30,
        month_days(year, 10) == 31,
        month_days(year, 11) == 30,
        month_days(year, 12) == 31,
        days_to_month(year, 1) == 0,
        days_to_month(year, 12) + month_days(year, 12) == year_days(year),
{
    reveal_with_fuel(days_to_month, 13);
}

/// The day after a date: the next of the month, or the first of the next month, or of the next
/// year, is one day later.
pub proof fn law_next_day(d: Date)
    requires
        d.wf(),
        d.year < u64::MAX,
    ensures
        ({
            let next = if d.day < month_days(d.year as nat, d.month as nat) {
                Date { year: d.year, month: d.month, day: (d.day + 1) as u64 }
            } else if d.month < 12 {
                Date { year: d.year, month: (d.month + 1) as u64, day: 1 }
            } else {
                Date { year: (d.year + 1) as u64, month: 1, day: 1 }
            };
            next.wf() && next.day_number() == d.day_number() + 1
        }),
        (Date { year: 1970, month: 1, day: 1 }).wf(),
        (Date { year: 1970, month: 1, day: 1 }).day_number() == 0,
{
    law_months(d.year as nat);
    law_months((d.year + 1) as nat);
    law_months(1970);
}

proof fn lemma_zeros(n: nat, s: Seq<char>)
    ensures
        digits_value(Seq::new(n, |i: int| '0') + s) == digits_value(s),
    decreases s.len(), n,
{
    let z = Seq::new(n, |i: int| '0');
    if s.len() > 0 {
        lemma_zeros(n, s.drop_last());
        assert((z + s).drop_last() =~= z + s.drop_last());
        assert((z + s).last() == s.last());
    } else if n > 0 {
        let m = (n - 1) as nat;
        lemma_zeros(m, s);
        assert((z + s).drop_last() =~= Seq::new(m, |i: int| '0') + s);
        assert((z + s).last() == '0');
    } else {
        assert(z + s =~= s);
    }
}

proof fn lemma_padded(n: nat, width: nat)
    ensures
        digits_value(zero_padded(decimal(n), width)) == n,
        zero_padded(decimal(n), width).len() >= width,
{
    law_decimal(n);
    let s = decimal(n);
    if s.len() < width {
        lemma_zeros((width - s.len()) as nat, s);
    }
}

/// The text tells the date: its parts are the year, the month and the day, of at least four, two
/// and two digits, with hyphens between them.
pub proof fn law_date_text(d: Date)
    ensures
        exists|y: Seq<char>, m: Seq<char>, x: Seq<char>|
            d.text() == #[trigger] (y + "-"@ + m + "-"@ + x) && digits_value(y) == d.year
                && digits_value(m) == d.month && digits_value(x) == d.day && y.len() >= 4 && m.len()
                >= 2 && x.len() >= 2,
{
    let y = zero_padded(decimal(d.year as nat), 4);
    let m = zero_padded(decimal(d.month as nat), 2);
    let x = zero_padded(decimal(d.day as nat), 2);
    lemma_padded(d.year as nat, 4);
    lemma_padded(d.month as nat, 2);
    lemma_padded(d.day as nat, 2);
    assert(d.text() == y + "-"@ + m + "-"@ + x);
}

}
