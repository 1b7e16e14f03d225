//! Timestamps with one-second resolution.
//!
//! A [`DateTime`] pairs a [`Date`] with a time of day. Its position on the
//! time line is [`second_index`], the number of seconds since the first
//! supported day's midnight; ordering and distances go through that index.

use vstd::prelude::*;
use crate::date::{day_index, max_day_index, valid_date, Date};

verus! {

/// A calendar date together with a time of day.
#[derive(Clone, Copy, PartialEq, Eq, Structural, Debug, Hash)]
pub struct DateTime {
    pub date: Date,
    pub hour: u64,
    pub minute: u64,
    pub second: u64,
}

/// Whether the fields form a real timestamp in the supported range.
pub open spec fn valid_datetime(t: DateTime) -> bool {
    &&& valid_date(t.date)
    &&& t.hour < 24
    &&& t.minute < 60
    &&& t.second < 60
}

/// Position of `t` on the time line: seconds since the first supported
/// day's midnight.
pub open spec fn second_index(t: DateTime) -> int {
    day_index(t.date) * 86400 + t.hour * 3600 + t.minute * 60 + t.second
}

/// A timestamp lies inside its day's slice of the time line.
pub proof fn lemma_second_index_in_day(t: DateTime)
    requires
        valid_datetime(t),
    ensures
        day_index(t.date) * 86400 <= second_index(t),
        second_index(t) < (day_index(t.date) + 1) * 86400,
        second_index(t) >= 0,
{
    crate::date::lemma_day_index_range(t.date);
    assert(day_index(t.date) * 86400 >= 0) by (nonlinear_arith)
        requires
            day_index(t.date) >= 0,
    ;
}

/// Ordering of days implies ordering of timestamps within them.
pub proof fn lemma_second_index_day_mono(a: DateTime, b: DateTime)
    requires
        valid_datetime(a),
        valid_datetime(b),
        day_index(a.date) < day_index(b.date),
    ensures
        second_index(a) < second_index(b),
{
    lemma_second_index_in_day(a);
    lemma_second_index_in_day(b);
    assert((day_index(a.date) + 1) * 86400 <= day_index(b.date) * 86400) by (nonlinear_arith)
        requires
            day_index(a.date) + 1 <= day_index(b.date),
    ;
}

impl DateTime {
    /// Builds a timestamp from its parts.
    pub fn new(date: Date, hour: u64, minute: u64, second: u64) -> (r: DateTime)
        ensures
            r == (DateTime { date, hour, minute, second }),
    {
        DateTime { date, hour, minute, second }
    }

    /// Whether the fields form a real timestamp in the supported range.
    pub fn is_valid(&self) -> (r: bool)
        ensures
            r == valid_datetime(*self),
    {
        self.date.is_valid() && self.hour < 24 && self.minute < 60 && self.second < 60
    }

    /// Seconds since the first supported day's midnight.
    pub fn seconds(&self) -> (r: u64)
        requires
            valid_datetime(*self),
        ensures
            r == second_index(*self),
    {
        proof {
            crate::date::lemma_day_index_range(self.date);
            assert(day_index(self.date) * 86400 <= 36600000 * 86400) by (nonlinear_arith)
                requires
                    0 <= day_index(self.date) <= 36600000,
            ;
        }
        self.date.index() * 86400 + self.hour * 3600 + self.minute * 60 + self.second
    }

    /// Whether `self` is on or before `other` on the time line.
    pub fn is_on_or_before(&self, other: &DateTime) -> (r: bool)
        requires
            valid_datetime(*self),
            valid_datetime(*other),
        ensures
            r == (second_index(*self) <= second_index(*other)),
    {
        self.seconds() <= other.seconds()
    }

    /// Whether `self` is strictly before `other` on the time line.
    pub fn is_before(&self, other: &DateTime) -> (r: bool)
        requires
            valid_datetime(*self),
            valid_datetime(*other),
        ensures
            r == (second_index(*self) < second_index(*other)),
    {
        self.seconds() < other.seconds()
    }

    /// The same timestamp with minutes and seconds cleared: the start of the
    /// hour that contains `self`.
    pub fn floor_to_hour(&self) -> (r: DateTime)
        ensures
            r == (DateTime { date: self.date, hour: self.hour, minute: 0, second: 0 }),
    {
        DateTime { date: self.date, hour: self.hour, minute: 0, second: 0 }
    }

    /// The timestamp exactly one hour later, for an on-the-hour timestamp.
    pub fn plus_one_hour(&self) -> (r: DateTime)
        requires
            valid_datetime(*self),
            day_index(self.date) < max_day_index() || self.hour < 23,
        ensures
            valid_datetime(r),
            second_index(r) == second_index(*self) + 3600,
    {
        if self.hour < 23 {
            DateTime { date: self.date, hour: self.hour + 1, minute: self.minute, second: self.second }
        } else {
            DateTime {
                date: self.date.next_day(),
                hour: 0,
                minute: self.minute,
                second: self.second,
            }
        }
    }

    /// Midnight at the start of `date`.
    pub fn day_start(date: Date) -> (r: DateTime)
        ensures
            r == (DateTime { date, hour: 0, minute: 0, second: 0 }),
    {
        DateTime { date, hour: 0, minute: 0, second: 0 }
    }

    /// Seconds from `self` to `other`, which must not be earlier.
    pub fn seconds_until(&self, other: &DateTime) -> (r: u64)
        requires
            valid_datetime(*self),
            valid_datetime(*other),
            second_index(*self) <= second_index(*other),
        ensures
            r == second_index(*other) - second_index(*self),
    {
        other.seconds() - self.seconds()
    }
}

} // verus!
