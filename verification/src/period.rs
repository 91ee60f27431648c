//! The reporting period: one calendar month, and the creation-time range that
//! selects its records.

use chrono::{TimeZone, Utc};
use vstd::prelude::*;

verus! {

pub open spec fn digit_char(d: int) -> char {
    (48 + d) as u8 as char
}

/// `n`, below one hundred, written with two digits.
pub open spec fn two_digits(n: int) -> Seq<char> {
    seq![digit_char(n / 10), digit_char(n % 10)]
}

/// The first instant of a month in UTC, written as a timestamp with a numeric
/// offset: `YYYY-MM-01T00:00:00+00:00`.
pub open spec fn month_start_text(year: int, month: int) -> Seq<char> {
    two_digits(year / 100) + two_digits(year % 100) + seq!['-'] + two_digits(month)
        + "-01T00:00:00+00:00"@
}

/// Calls chrono's `TimeZone::with_ymd_and_hms` on `Utc` for midnight of the
/// first day of the month, unwraps the single instant it maps to, and formats
/// it with `DateTime::to_rfc3339`. For a month of a year from 0 to 9999 chrono
/// finds that instant and writes the year with four digits, no fraction of a
/// second and the offset as `+00:00`; this is what the contract claims.
#[verifier::external_body]
fn utc_month_start(year: i32, month: u32) -> (text: String)
    requires
        0 <= year <= 9999,
        1 <= month <= 12,
    ensures
        text@ == month_start_text(year as int, month as int),
{
    Utc.with_ymd_and_hms(year, month, 1, 0, 0, 0).unwrap().to_rfc3339()
}

/// A calendar month of a year from 0 to 9998.
#[derive(Debug)]
pub struct Period {
    year: i32,
    month: u32,
}

impl Period {
    #[verifier::type_invariant]
    spec fn in_range(self) -> bool {
        0 <= self.year <= 9998 && 1 <= self.month <= 12
    }

    pub closed spec fn spec_year(self) -> int {
        self.year as int
    }

    pub closed spec fn spec_month(self) -> int {
        self.month as int
    }

    /// The month `month` of `year`, if there is such a month and the year is
    /// from 0 to 9998.
    pub fn new(year: i32, month: u32) -> (period: Option<Period>)
        ensures
            period is Some <==> 0 <= year <= 9998 && 1 <= month <= 12,
            period matches Some(p) ==> p.spec_year() == year && p.spec_month() == month,
    {
        if 0 <= year && year <= 9998 && 1 <= month && month <= 12 {
            Some(Period { year, month })
        } else {
            None
        }
    }

    pub fn year(&self) -> (year: i32)
        ensures
            year == self.spec_year(),
            0 <= year <= 9998,
    {
        proof {
            use_type_invariant(self);
        }
        self.year
    }

    pub fn month(&self) -> (month: u32)
        ensures
            month == self.spec_month(),
            1 <= month <= 12,
    {
        proof {
            use_type_invariant(self);
        }
        self.month
    }

    /// Year and month of the month after this one.
    pub open spec fn following(self) -> (int, int) {
        if self.spec_month() == 12 {
            (self.spec_year() + 1, 1)
        } else {
            (self.spec_year(), self.spec_month() + 1)
        }
    }

    /// Year and month of the month after this one: January of the next year
    /// after a December.
    pub fn next_month(&self) -> (next: (i32, u32))
        ensures
            (next.0 as int, next.1 as int) == self.following(),
    {
        proof {
            use_type_invariant(self);
        }
        if self.month == 12 {
            (self.year + 1, 1)
        } else {
            (self.year, self.month + 1)
        }
    }

    /// The creation-time range of the period: from its first instant,
    /// inclusive, to the first instant of the following month, exclusive.
    pub fn range(&self) -> (bounds: (String, String))
        ensures
            bounds.0@ == month_start_text(self.spec_year(), self.spec_month()),
            bounds.1@ == month_start_text(self.following().0, self.following().1),
    {
        proof {
            use_type_invariant(self);
        }
        let next = self.next_month();
        (utc_month_start(self.year, self.month), utc_month_start(next.0, next.1))
    }
}

} // verus!
