//! Calendar dates in the proleptic Gregorian calendar.
//!
//! A [`Date`] holds a year, month and day as plain integers. Its position on
//! the time line is given by [`day_index`], the number of days since the
//! first supported day (year 1, January 1). All ordering and distance
//! reasoning about dates goes through that index.

use vstd::prelude::*;

verus! {

/// First supported year.
pub const MIN_YEAR: u64 = 1;

/// Last supported year.
pub const MAX_YEAR: u64 = 99999;

/// A calendar date: year, month (1..=12) and day of month (1-based).
#[derive(Clone, Copy, PartialEq, Eq, Structural, Debug, Hash)]
pub struct Date {
    pub year: u64,
    pub month: u64,
    pub day: u64,
}

/// Leap years have 366 days; a year divisible by 4 is leap unless it is
/// divisible by 100 and not by 400.
pub open spec fn is_leap_year(y: int) -> bool {
    (y % 4 == 0 && y % 100 != 0) || y % 400 == 0
}

/// Number of days in month `m` of year `y`.
pub open spec fn days_in_month(y: int, m: int) -> int {
    if m == 2 {
        if is_leap_year(y) {
            29
        } else {
            28
        }
    } else if m == 4 || m == 6 || m == 9 || m == 11 {
        30
    } else {
        31
    }
}

/// Number of days in year `y`.
pub open spec fn year_len(y: int) -> int {
    if is_leap_year(y) {
        366
    } else {
        365
    }
}

/// Days of year `y` that lie before month `m`.
pub open spec fn days_before_month(y: int, m: int) -> int
    decreases m,
{
    if m <= 1 {
        0
    } else {
        days_before_month(y, m - 1) + days_in_month(y, m - 1)
    }
}

/// Days that lie before January 1 of year `y`, counted from year `MIN_YEAR`.
pub open spec fn days_before_year(y: int) -> int
    decreases y,
{
    if y <= MIN_YEAR {
        0
    } else {
        days_before_year(y - 1) + year_len(y - 1)
    }
}

/// Whether the fields of `d` form a real calendar date in the supported range.
pub open spec fn valid_date(d: Date) -> bool {
    &&& MIN_YEAR <= d.year <= MAX_YEAR
    &&& 1 <= d.month <= 12
    &&& 1 <= d.day <= days_in_month(d.year as int, d.month as int)
}

/// Position of `d` on the time line: days since year `MIN_YEAR`, January 1.
pub open spec fn day_index(d: Date) -> int {
    days_before_year(d.year as int) + days_before_month(d.year as int, d.month as int) + d.day - 1
}

/// The last supported day.
pub open spec fn max_date() -> Date {
    Date { year: MAX_YEAR, month: 12, day: 31 }
}

/// Index of the last supported day.
pub open spec fn max_day_index() -> int {
    day_index(max_date())
}

/// Months of `d` counted linearly from year 0, used to order year/month pairs.
pub open spec fn month_index(d: Date) -> int {
    12 * d.year + d.month - 1
}

/// The days before a month are never negative.
pub proof fn lemma_days_before_month_nonneg(y: int, m: int)
    requires
        m <= 13,
    ensures
        0 <= days_before_month(y, m),
    decreases m,
{
    if m > 1 {
        lemma_days_before_month_nonneg(y, m - 1);
    }
}

/// The days before a month never exceed the length of the year.
pub proof fn lemma_days_before_month_bounds(y: int, m: int)
    requires
        1 <= m <= 12,
    ensures
        0 <= days_before_month(y, m),
        days_before_month(y, m) + days_in_month(y, m) <= year_len(y),
    decreases 12 - m,
{
    lemma_days_before_month_nonneg(y, m);
    if m == 12 {
        assert(days_before_month(y, 12) + days_in_month(y, 12) == year_len(y)) by {
            reveal_with_fuel(days_before_month, 13);
        }
    } else {
        lemma_days_before_month_bounds(y, m + 1);
    }
}

/// `days_before_month` grows with the month.
pub proof fn lemma_days_before_month_mono(y: int, m1: int, m2: int)
    requires
        1 <= m1 <= m2 <= 13,
    ensures
        days_before_month(y, m1) <= days_before_month(y, m2),
    decreases m2 - m1,
{
    if m1 < m2 {
        lemma_days_before_month_mono(y, m1, m2 - 1);
        if m2 - 1 >= 1 && m2 - 1 <= 12 {
            lemma_days_before_month_bounds(y, m2 - 1);
        }
    }
}

/// `days_before_year` grows with the year.
pub proof fn lemma_days_before_year_mono(y1: int, y2: int)
    requires
        MIN_YEAR <= y1 <= y2,
    ensures
        days_before_year(y1) <= days_before_year(y2),
        days_before_year(y1) + 365 * (y2 - y1) <= days_before_year(y2),
    decreases y2 - y1,
{
    if y1 < y2 {
        lemma_days_before_year_mono(y1, y2 - 1);
    }
}

/// A valid date's index lies within its year's slice of the time line.
pub proof fn lemma_day_index_in_year(d: Date)
    requires
        valid_date(d),
    ensures
        days_before_year(d.year as int) <= day_index(d),
        day_index(d) < days_before_year(d.year as int) + year_len(d.year as int),
        day_index(d) < days_before_year(d.year + 1),
{
    lemma_days_before_month_bounds(d.year as int, d.month as int);
    assert(days_before_year(d.year + 1)
        == days_before_year(d.year as int) + year_len(d.year as int));
}

/// Every valid date's index is between 0 and `max_day_index`.
pub proof fn lemma_day_index_range(d: Date)
    requires
        valid_date(d),
    ensures
        0 <= day_index(d) <= max_day_index(),
        max_day_index() < 36600000,
{
    lemma_day_index_in_year(d);
    lemma_days_before_year_mono(MIN_YEAR as int, d.year as int);
    lemma_days_before_year_mono(d.year + 1, MAX_YEAR as int + 1);
    assert(days_before_month(MAX_YEAR as int, 12) + 31 == year_len(MAX_YEAR as int)) by {
        reveal_with_fuel(days_before_month, 13);
    }
    assert(max_day_index() == days_before_year(MAX_YEAR as int + 1) - 1);
    lemma_days_before_year_bound(MAX_YEAR as int + 1);
}

/// Coarse upper bound on `days_before_year`, enough to exclude overflow.
pub proof fn lemma_days_before_year_bound(y: int)
    requires
        MIN_YEAR <= y <= MAX_YEAR + 1,
    ensures
        days_before_year(y) <= 366 * (y - 1),
    decreases y,
{
    if y > MIN_YEAR {
        lemma_days_before_year_bound(y - 1);
    }
}

/// Ordering by (year, month) implies ordering of day indexes.
pub proof fn lemma_day_index_month_mono(a: Date, b: Date)
    requires
        valid_date(a),
        valid_date(b),
        month_index(a) < month_index(b),
    ensures
        day_index(a) < day_index(b),
{
    lemma_day_index_in_year(a);
    lemma_day_index_in_year(b);
    if a.year < b.year {
        lemma_days_before_year_mono(a.year + 1, b.year as int);
    } else {
        assert(a.year == b.year && a.month < b.month);
        lemma_days_before_month_bounds(a.year as int, a.month as int);
        lemma_days_before_month_mono(a.year as int, a.month + 1, b.month as int);
    }
}

/// Ordering of day indexes implies ordering of years.
pub proof fn lemma_year_mono_by_index(a: Date, b: Date)
    requires
        valid_date(a),
        valid_date(b),
        day_index(a) <= day_index(b),
    ensures
        a.year <= b.year,
{
    if a.year > b.year {
        lemma_day_index_in_year(a);
        lemma_day_index_in_year(b);
        lemma_days_before_year_mono(b.year + 1, a.year as int);
    }
}

/// Two valid dates with the same day index are the same date.
pub proof fn lemma_day_index_injective(a: Date, b: Date)
    requires
        valid_date(a),
        valid_date(b),
        day_index(a) == day_index(b),
    ensures
        a == b,
{
    if month_index(a) < month_index(b) {
        lemma_day_index_month_mono(a, b);
    } else if month_index(b) < month_index(a) {
        lemma_day_index_month_mono(b, a);
    }
}

/// Whether year `y` is a leap year.
pub fn leap_year(y: u64) -> (r: bool)
    ensures
        r == is_leap_year(y as int),
{
    (y % 4 == 0 && y % 100 != 0) || y % 400 == 0
}

/// Number of days in month `m` of year `y`.
pub fn month_len(y: u64, m: u64) -> (r: u64)
    ensures
        r == days_in_month(y as int, m as int),
{
    if m == 2 {
        if leap_year(y) {
            29
        } else {
            28
        }
    } else if m == 4 || m == 6 || m == 9 || m == 11 {
        30
    } else {
        31
    }
}

impl Date {
    /// Builds a date from its parts.
    pub fn new(year: u64, month: u64, day: u64) -> (r: Date)
        ensures
            r == (Date { year, month, day }),
    {
        Date { year, month, day }
    }

    /// Whether the fields form a real calendar date in the supported range.
    pub fn is_valid(&self) -> (r: bool)
        ensures
            r == valid_date(*self),
    {
        MIN_YEAR <= self.year && self.year <= MAX_YEAR && 1 <= self.month && self.month <= 12
            && 1 <= self.day && self.day <= month_len(self.year, self.month)
    }

    /// Days since year `MIN_YEAR`, January 1.
    pub fn index(&self) -> (r: u64)
        requires
            valid_date(*self),
        ensures
            r == day_index(*self),
    {
        proof {
            lemma_day_index_range(*self);
        }
        let mut acc: u64 = 0;
        let mut y: u64 = MIN_YEAR;
        while y < self.year
            invariant
                MIN_YEAR <= y <= self.year <= MAX_YEAR,
                acc == days_before_year(y as int),
                acc <= 366 * (y - MIN_YEAR),
            decreases self.year - y,
        {
            acc = acc + if leap_year(y) {
                366
            } else {
                365
            };
            y = y + 1;
        }
        let mut m: u64 = 1;
        while m < self.month
            invariant
                1 <= m <= self.month,
                self.month <= 12,
                self.year <= MAX_YEAR,
                acc == days_before_year(self.year as int) + days_before_month(
                    self.year as int,
                    m as int,
                ),
                acc <= 366 * (self.year - MIN_YEAR) + 31 * (m - 1),
            decreases self.month - m,
        {
            acc = acc + month_len(self.year, m);
            m = m + 1;
        }
        acc + (self.day - 1)
    }

    /// Whether `self` is on or before `other` on the time line.
    pub fn is_on_or_before(&self, other: &Date) -> (r: bool)
        requires
            valid_date(*self),
            valid_date(*other),
        ensures
            r == (day_index(*self) <= day_index(*other)),
    {
        self.index() <= other.index()
    }

    /// Whether `self` is strictly before `other` on the time line.
    pub fn is_before(&self, other: &Date) -> (r: bool)
        requires
            valid_date(*self),
            valid_date(*other),
        ensures
            r == (day_index(*self) < day_index(*other)),
    {
        self.index() < other.index()
    }

    /// The day after `self`.
    pub fn next_day(&self) -> (r: Date)
        requires
            valid_date(*self),
            day_index(*self) < max_day_index(),
        ensures
            valid_date(r),
            day_index(r) == day_index(*self) + 1,
    {
        let dim = month_len(self.year, self.month);
        if self.day < dim {
            Date { year: self.year, month: self.month, day: self.day + 1 }
        } else if self.month < 12 {
            Date { year: self.year, month: self.month + 1, day: 1 }
        } else {
            proof {
                if self.year == MAX_YEAR {
                    assert(*self == max_date());
                }
                assert(days_before_month(self.year as int, 12) + 31 == year_len(self.year as int))
                    by {
                    reveal_with_fuel(days_before_month, 13);
                }
            }
            Date { year: self.year + 1, month: 1, day: 1 }
        }
    }

    /// The day before `self`.
    pub fn prev_day(&self) -> (r: Date)
        requires
            valid_date(*self),
            day_index(*self) > 0,
        ensures
            valid_date(r),
            day_index(r) == day_index(*self) - 1,
    {
        if self.day > 1 {
            Date { year: self.year, month: self.month, day: self.day - 1 }
        } else if self.month > 1 {
            Date { year: self.year, month: self.month - 1, day: month_len(
                self.year,
                self.month - 1,
            ) }
        } else {
            proof {
                assert(days_before_month((self.year - 1) as int, 12) + 31 == year_len(
                    (self.year - 1) as int,
                )) by {
                    reveal_with_fuel(days_before_month, 13);
                }
            }
            Date { year: self.year - 1, month: 12, day: 31 }
        }
    }

    /// The date `n` days after `self`.
    pub fn add_days(&self, n: u64) -> (r: Date)
        requires
            valid_date(*self),
            day_index(*self) + n <= max_day_index(),
        ensures
            valid_date(r),
            day_index(r) == day_index(*self) + n,
    {
        let mut cur: Date = *self;
        let mut i: u64 = 0;
        while i < n
            invariant
                i <= n,
                valid_date(cur),
                day_index(cur) == day_index(*self) + i,
                day_index(*self) + n <= max_day_index(),
            decreases n - i,
        {
            cur = cur.next_day();
            i = i + 1;
        }
        cur
    }

    /// The date `n` days before `self`.
    pub fn sub_days(&self, n: u64) -> (r: Date)
        requires
            valid_date(*self),
            n <= day_index(*self),
        ensures
            valid_date(r),
            day_index(r) == day_index(*self) - n,
    {
        let mut cur: Date = *self;
        let mut i: u64 = 0;
        while i < n
            invariant
                i <= n,
                valid_date(cur),
                day_index(cur) == day_index(*self) - i,
                n <= day_index(*self),
            decreases n - i,
        {
            cur = cur.prev_day();
            i = i + 1;
        }
        cur
    }

    /// The date `n` months after `self`, with the day of month clamped to
    /// the length of the target month.
    pub fn add_months(&self, n: u64) -> (r: Date)
        requires
            valid_date(*self),
            month_index(*self) + n <= 12 * MAX_YEAR + 11,
        ensures
            valid_date(r),
            month_index(r) == month_index(*self) + n,
            r.year == (12 * self.year + self.month - 1 + n) / 12,
            r.month == (12 * self.year + self.month - 1 + n) % 12 + 1,
            r.day == if self.day <= days_in_month(r.year as int, r.month as int) {
                self.day as int
            } else {
                days_in_month(r.year as int, r.month as int)
            },
            n >= 1 ==> day_index(r) > day_index(*self),
    {
        let t: u64 = 12 * self.year + (self.month - 1) + n;
        let year: u64 = t / 12;
        let month: u64 = t % 12 + 1;
        let dim = month_len(year, month);
        let day: u64 = if self.day <= dim {
            self.day
        } else {
            dim
        };
        let r = Date { year, month, day };
        proof {
            assert(year == t as int / 12 && month == t as int % 12 + 1);
            assert(12 * year + month - 1 == t) by (nonlinear_arith)
                requires
                    year == t as int / 12 && month == t as int % 12 + 1,
            ;
            if n >= 1 {
                lemma_day_index_month_mono(*self, r);
            }
        }
        r
    }

    /// The date `n` months before `self`, with the day of month clamped to
    /// the length of the target month.
    pub fn sub_months(&self, n: u64) -> (r: Date)
        requires
            valid_date(*self),
            month_index(*self) - n >= 12 * MIN_YEAR,
        ensures
            valid_date(r),
            month_index(r) == month_index(*self) - n,
            r.year == (12 * self.year + self.month - 1 - n) / 12,
            r.month == (12 * self.year + self.month - 1 - n) % 12 + 1,
            r.day == if self.day <= days_in_month(r.year as int, r.month as int) {
                self.day as int
            } else {
                days_in_month(r.year as int, r.month as int)
            },
            n >= 1 ==> day_index(r) < day_index(*self),
    {
        let t: u64 = 12 * self.year + (self.month - 1) - n;
        let year: u64 = t / 12;
        let month: u64 = t % 12 + 1;
        let dim = month_len(year, month);
        let day: u64 = if self.day <= dim {
            self.day
        } else {
            dim
        };
        let r = Date { year, month, day };
        proof {
            assert(year == t as int / 12 && month == t as int % 12 + 1);
            assert(12 * year + month - 1 == t) by (nonlinear_arith)
                requires
                    year == t as int / 12 && month == t as int % 12 + 1,
            ;
            if n >= 1 {
                lemma_day_index_month_mono(r, *self);
            }
        }
        r
    }
}

} // verus!
