//! Billing-cycle windows.
//!
//! A cycle specification is either a fixed range (`ONCE`) or a window that
//! repeats every `each` days or months, anchored at a reset date. Repeating
//! windows tile the time line: window boundaries are the anchor stepped
//! forwards or backwards period by period, and every day belongs to exactly
//! one window. [`derive_cycle_window`] walks from the anchor towards `today`
//! and returns the window that contains it.

use vstd::prelude::*;
use crate::date::{
    day_index, days_in_month, max_day_index, month_index, valid_date, Date, MAX_YEAR, MIN_YEAR,
};

verus! {

/// A cycle specification: a window repeating every so many days or months
/// from an anchor date, or one fixed range.
#[derive(Clone, Copy, PartialEq, Eq, Structural, Debug)]
pub enum CycleType {
    /// Repeats every so many days, anchored at the given reset date.
    DAY(i64, Date),
    /// Repeats every so many months, anchored at the given reset date.
    MONTH(i64, Date),
    /// One fixed window between the two dates, both inclusive.
    ONCE(Date, Date),
}

/// The anchor moved forward by `each` months, day of month clamped to the
/// target month. Out of the supported year range, an invalid marker date.
pub open spec fn month_step(each: int, d: Date) -> Date {
    let t = 12 * d.year + d.month - 1 + each;
    if 12 * MIN_YEAR <= t <= 12 * MAX_YEAR + 11 {
        let dim = days_in_month(t / 12, t % 12 + 1);
        Date {
            year: (t / 12) as u64,
            month: (t % 12 + 1) as u64,
            day: if d.day <= dim {
                d.day
            } else {
                dim as u64
            },
        }
    } else {
        Date { year: 0, month: 0, day: 0 }
    }
}

/// The anchor moved backward by `each` months, day of month clamped.
pub open spec fn month_back_step(each: int, d: Date) -> Date {
    let t = 12 * d.year + d.month - 1 - each;
    if 12 * MIN_YEAR <= t <= 12 * MAX_YEAR + 11 {
        let dim = days_in_month(t / 12, t % 12 + 1);
        Date {
            year: (t / 12) as u64,
            month: (t % 12 + 1) as u64,
            day: if d.day <= dim {
                d.day
            } else {
                dim as u64
            },
        }
    } else {
        Date { year: 0, month: 0, day: 0 }
    }
}

/// The `i`-th boundary of a month cycle: the anchor stepped `i` periods
/// forward when `i` is positive, backward when negative.
pub open spec fn cycle_anchor(each: int, anchor: Date, i: int) -> Date
    decreases
            (if i >= 0 {
                i
            } else {
                -i
            }),
{
    if i == 0 {
        anchor
    } else if i > 0 {
        month_step(each, cycle_anchor(each, anchor, i - 1))
    } else {
        month_back_step(each, cycle_anchor(each, anchor, i + 1))
    }
}

/// All month-cycle boundaries from number `lo` to number `hi` are real dates.
pub open spec fn chain_valid_between(each: int, anchor: Date, lo: int, hi: int) -> bool {
    forall|l: int| lo <= l <= hi ==> valid_date(#[trigger] cycle_anchor(each, anchor, l))
}

/// `lo ..= hi` is the month-cycle window between boundaries `i` and `i + 1`,
/// with every boundary between it and the anchor a real date.
pub open spec fn month_window_at(each: int, anchor: Date, i: int, lo: Date, hi: Date) -> bool {
    &&& valid_date(lo)
    &&& valid_date(hi)
    &&& lo == cycle_anchor(each, anchor, i)
    &&& valid_date(cycle_anchor(each, anchor, i + 1))
    &&& day_index(hi) + 1 == day_index(cycle_anchor(each, anchor, i + 1))
    &&& chain_valid_between(
        each,
        anchor,
        if i < 0 {
            i
        } else {
            0
        },
        if i + 1 > 0 {
            i + 1
        } else {
            0
        },
    )
}

/// `lo ..= hi` is a month-cycle window: some boundary number places it on
/// the chain of anchors.
pub open spec fn is_month_window(each: int, anchor: Date, lo: Date, hi: Date) -> bool {
    exists|i: int| month_window_at(each, anchor, i, lo, hi)
}

/// `lo ..= hi` is a day-cycle window: it starts a whole number of periods
/// from the anchor and is exactly one period long.
pub open spec fn is_day_window(each: int, anchor: Date, lo: Date, hi: Date) -> bool {
    &&& valid_date(lo)
    &&& valid_date(hi)
    &&& exists|k: int| day_index(lo) == day_index(anchor) + #[trigger] (k * each)
    &&& day_index(hi) == day_index(lo) + each - 1
}

/// `lo ..= hi` is a window of the given cycle specification.
pub open spec fn is_cycle_window(ct: CycleType, lo: Date, hi: Date) -> bool {
    match ct {
        CycleType::DAY(each, anchor) => is_day_window(each as int, anchor, lo, hi),
        CycleType::MONTH(each, anchor) => is_month_window(each as int, anchor, lo, hi),
        CycleType::ONCE(start, end) => lo == start && hi == end,
    }
}

/// The walk from the anchor to `today` by whole days stays on the supported
/// time line.
pub open spec fn day_walk_fits(each: int, anchor: Date, today: Date) -> bool {
    if day_index(anchor) <= day_index(today) {
        day_index(today) + each <= max_day_index()
    } else {
        each <= day_index(today) + 1
    }
}

/// The walk from the anchor to `today` by whole months stays in the
/// supported year range.
pub open spec fn month_walk_fits(each: int, anchor: Date, today: Date) -> bool {
    if day_index(anchor) <= day_index(today) {
        12 * today.year + 24 + each <= 12 * MAX_YEAR
    } else {
        12 * MIN_YEAR + 12 + each <= 12 * today.year
    }
}

/// The cycle specification is well formed and its window walk towards
/// `today` stays in the supported date range.
pub open spec fn cycle_window_fits(ct: CycleType, today: Date) -> bool {
    &&& valid_date(today)
    &&& match ct {
        CycleType::DAY(each, anchor) => valid_date(anchor) && each >= 1 && day_walk_fits(
            each as int,
            anchor,
            today,
        ),
        CycleType::MONTH(each, anchor) => valid_date(anchor) && each >= 1 && month_walk_fits(
            each as int,
            anchor,
            today,
        ),
        CycleType::ONCE(start, end) => valid_date(start) && valid_date(end),
    }
}

/// Decides [`cycle_window_fits`] at run time, so that a configuration whose
/// window walk would leave the supported date range can be rejected as a
/// configuration error instead.
pub fn cycle_window_fits_check(ct: &CycleType, today: Date) -> (r: bool)
    requires
        valid_date(today),
        (*ct matches CycleType::DAY(each, anchor) ==> valid_date(anchor) && each >= 1),
        (*ct matches CycleType::MONTH(each, anchor) ==> valid_date(anchor) && each >= 1),
        (*ct matches CycleType::ONCE(start, end) ==> valid_date(start) && valid_date(end)),
    ensures
        r == cycle_window_fits(*ct, today),
{
    proof {
        crate::date::lemma_day_index_range(today);
    }
    match ct {
        CycleType::ONCE(_, _) => true,
        CycleType::DAY(each_raw, anchor) => {
            let each: u64 = *each_raw as u64;
            let ti: u64 = today.index();
            proof {
                crate::date::lemma_day_index_range(*anchor);
                crate::date::lemma_day_index_range(crate::date::max_date());
            }
            let mi: u64 = Date::new(crate::date::MAX_YEAR, 12, 31).index();
            if anchor.is_on_or_before(&today) {
                ti <= u64::MAX - each && ti + each <= mi
            } else {
                each <= ti + 1
            }
        },
        CycleType::MONTH(each_raw, anchor) => {
            let each: u64 = *each_raw as u64;
            proof {
                crate::date::lemma_day_index_range(*anchor);
            }
            if anchor.is_on_or_before(&today) {
                12 * today.year + 24 <= u64::MAX - each && 12 * today.year + 24 + each <= 12
                    * MAX_YEAR
            } else {
                12 * MIN_YEAR + 12 <= u64::MAX - each && 12 * MIN_YEAR + 12 + each <= 12
                    * today.year
            }
        },
    }
}

/// A valid forward month step lands exactly one period further on, later on
/// the time line.
proof fn lemma_month_step_exact(each: int, d: Date)
    requires
        valid_date(d),
        each >= 1,
        valid_date(month_step(each, d)),
    ensures
        month_index(month_step(each, d)) == month_index(d) + each,
        day_index(month_step(each, d)) > day_index(d),
{
    let t = 12 * d.year + d.month - 1 + each;
    assert(12 * MIN_YEAR <= t <= 12 * MAX_YEAR + 11) by {
        if !(12 * MIN_YEAR <= t <= 12 * MAX_YEAR + 11) {
            assert(month_step(each, d) == Date { year: 0u64, month: 0u64, day: 0u64 });
        }
    }
    vstd::arithmetic::div_mod::lemma_fundamental_div_mod(t, 12);
    vstd::arithmetic::div_mod::lemma_mod_division_less_than_divisor(t, 12);
    vstd::arithmetic::div_mod::lemma_div_pos_is_pos(t, 12);
    crate::date::lemma_day_index_month_mono(d, month_step(each, d));
}

/// A valid backward month step lands exactly one period earlier.
proof fn lemma_month_back_step_exact(each: int, d: Date)
    requires
        valid_date(d),
        each >= 1,
        valid_date(month_back_step(each, d)),
    ensures
        month_index(month_back_step(each, d)) == month_index(d) - each,
        day_index(month_back_step(each, d)) < day_index(d),
{
    let t = 12 * d.year + d.month - 1 - each;
    assert(12 * MIN_YEAR <= t <= 12 * MAX_YEAR + 11) by {
        if !(12 * MIN_YEAR <= t <= 12 * MAX_YEAR + 11) {
            assert(month_back_step(each, d) == Date { year: 0u64, month: 0u64, day: 0u64 });
        }
    }
    vstd::arithmetic::div_mod::lemma_fundamental_div_mod(t, 12);
    vstd::arithmetic::div_mod::lemma_mod_division_less_than_divisor(t, 12);
    vstd::arithmetic::div_mod::lemma_div_pos_is_pos(t, 12);
    crate::date::lemma_day_index_month_mono(month_back_step(each, d), d);
}

/// Along a stretch of valid boundaries, later boundaries lie later on the
/// time line.
proof fn lemma_chain_increasing(each: int, anchor: Date, lo: int, hi: int)
    requires
        each >= 1,
        forall|l: int| lo <= l <= hi ==> valid_date(#[trigger] cycle_anchor(each, anchor, l)),
        lo <= hi,
    ensures
        day_index(cycle_anchor(each, anchor, lo)) + (hi - lo) <= day_index(
            cycle_anchor(each, anchor, hi),
        ),
    decreases hi - lo,
{
    if lo < hi {
        lemma_chain_increasing(each, anchor, lo, hi - 1);
        let prev = cycle_anchor(each, anchor, hi - 1);
        let cur = cycle_anchor(each, anchor, hi);
        if hi > 0 {
            assert(cur == month_step(each, prev));
            lemma_month_step_exact(each, prev);
        } else {
            assert(prev == month_back_step(each, cur));
            lemma_month_back_step_exact(each, cur);
        }
    }
}

/// Consecutive windows of a repeating cycle are contiguous: a window that
/// contains the day after another window's end starts exactly on that day.
///
/// Together with the coverage clause of [`derive_cycle_window`], this is the
/// tiling property of repeating cycles: windows follow each other without a
/// gap or an overlap, so each day belongs to exactly one window.
pub proof fn lemma_cycle_windows_contiguous(ct: CycleType, lo1: Date, hi1: Date, lo2: Date, hi2: Date)
    requires
        ct matches CycleType::DAY(each, anchor) ==> each >= 1,
        ct matches CycleType::MONTH(each, anchor) ==> each >= 1,
        !(ct is ONCE),
        is_cycle_window(ct, lo1, hi1),
        is_cycle_window(ct, lo2, hi2),
        day_index(lo2) <= day_index(hi1) + 1 <= day_index(hi2),
    ensures
        day_index(lo2) == day_index(hi1) + 1,
{
    match ct {
        CycleType::DAY(each_raw, anchor) => {
            let each = each_raw as int;
            let k1 = choose|k: int|
                day_index(lo1) == day_index(anchor) + #[trigger] (k * each);
            let k2 = choose|k: int|
                day_index(lo2) == day_index(anchor) + #[trigger] (k * each);
            assert((k1 + 1) * each == k1 * each + each) by (nonlinear_arith);
            assert(k2 * each <= (k1 + 1) * each <= k2 * each + each - 1);
            assert(k2 == k1 + 1) by (nonlinear_arith)
                requires
                    each >= 1,
                    k2 * each <= (k1 + 1) * each <= k2 * each + each - 1,
            ;
        },
        CycleType::MONTH(each_raw, anchor) => {
            let each = each_raw as int;
            let i1 = choose|i: int| month_window_at(each, anchor, i, lo1, hi1);
            let i2 = choose|i: int| month_window_at(each, anchor, i, lo2, hi2);
            let t2 = day_index(hi1) + 1;
            // `t2` is the boundary after window `i1`; show window `i2`
            // starts there by pinning `i2 == i1 + 1`.
            if i2 <= i1 {
                lemma_chain_increasing(each, anchor, i2 + 1, i1 + 1);
                assert(day_index(hi2) < day_index(cycle_anchor(each, anchor, i1 + 1)));
            } else if i2 > i1 + 1 {
                lemma_chain_increasing(each, anchor, i1 + 1, i2);
                assert(day_index(cycle_anchor(each, anchor, i1 + 1)) + (i2 - i1 - 1) <= day_index(
                    cycle_anchor(each, anchor, i2),
                ));
            }
            assert(i2 == i1 + 1);
        },
        CycleType::ONCE(_, _) => {},
    }
}

/// Derives the window of a repeating cycle that contains `today`, walking
/// from the anchor one period at a time; a `ONCE` cycle's window is its
/// fixed range. For `DAY` and `MONTH` cycles the result contains `today`.
pub fn derive_cycle_window(ct: &CycleType, today: Date) -> (r: (Date, Date))
    requires
        cycle_window_fits(*ct, today),
    ensures
        is_cycle_window(*ct, r.0, r.1),
        valid_date(r.0),
        valid_date(r.1),
        !(*ct is ONCE) ==> day_index(r.0) <= day_index(today) <= day_index(r.1),
{
    match ct {
        CycleType::ONCE(start, end) => (*start, *end),
        CycleType::DAY(each_raw, anchor) => {
            let each: u64 = *each_raw as u64;
            let w = derive_day_window(each, *anchor, today);
            proof {
                assert(is_day_window(*each_raw as int, *anchor, w.0, w.1));
            }
            w
        },
        CycleType::MONTH(each_raw, anchor) => {
            let each: u64 = *each_raw as u64;
            let w = derive_month_window(each, *anchor, today);
            w
        },
    }
}

/// Walks a day cycle from its anchor to the window that contains `today`.
fn derive_day_window(each: u64, anchor: Date, today: Date) -> (r: (Date, Date))
    requires
        valid_date(anchor),
        valid_date(today),
        each >= 1,
        day_walk_fits(each as int, anchor, today),
    ensures
        is_day_window(each as int, anchor, r.0, r.1),
        day_index(r.0) <= day_index(today) <= day_index(r.1),
{
    proof {
        crate::date::lemma_day_index_range(anchor);
        crate::date::lemma_day_index_range(today);
    }
    if anchor.is_on_or_before(&today) {
        let mut a: Date = anchor;
        let ghost mut k: int = 0;
        let mut s: Date = a.add_days(each);
        proof {
            assert(1int * each == each) by (nonlinear_arith);
        }
        while !today.is_before(&s)
            invariant
                valid_date(a),
                valid_date(s),
                valid_date(today),
                each >= 1,
                day_index(a) == day_index(anchor) + k * each,
                day_index(s) == day_index(a) + each,
                day_index(a) <= day_index(today),
                day_index(today) + each <= max_day_index(),
            decreases day_index(today) - day_index(a),
        {
            proof {
                assert((k + 1) * each == k * each + each) by (nonlinear_arith);
            }
            a = s;
            proof {
                k = k + 1;
            }
            s = a.add_days(each);
        }
        let hi = s.prev_day();
        proof {
            assert(day_index(a) == day_index(anchor) + k * each);
        }
        (a, hi)
    } else {
        let mut a: Date = anchor;
        let ghost mut k: int = 0;
        proof {
            assert(0int * each == 0) by (nonlinear_arith);
        }
        let mut b: Date = a.sub_days(each);
        proof {
            assert((-1int) * each == 0int * each - each) by (nonlinear_arith);
        }
        while !b.is_on_or_before(&today)
            invariant
                valid_date(a),
                valid_date(b),
                valid_date(today),
                each >= 1,
                day_index(a) == day_index(anchor) + k * each,
                day_index(b) == day_index(a) - each,
                day_index(a) > day_index(today),
                each <= day_index(today) + 1,
            decreases day_index(a),
        {
            proof {
                assert((k - 1) * each == k * each - each) by (nonlinear_arith);
            }
            a = b;
            proof {
                k = k - 1;
            }
            b = a.sub_days(each);
        }
        let hi = a.prev_day();
        proof {
            assert(day_index(b) == day_index(anchor) + (k - 1) * each) by (nonlinear_arith)
                requires
                    day_index(b) == day_index(a) - each,
                    day_index(a) == day_index(anchor) + k * each,
            ;
        }
        (b, hi)
    }
}

/// Walks a month cycle from its anchor to the window that contains `today`.
fn derive_month_window(each: u64, anchor: Date, today: Date) -> (r: (Date, Date))
    requires
        valid_date(anchor),
        valid_date(today),
        each >= 1,
        month_walk_fits(each as int, anchor, today),
    ensures
        is_month_window(each as int, anchor, r.0, r.1),
        day_index(r.0) <= day_index(today) <= day_index(r.1),
{
    proof {
        crate::date::lemma_day_index_range(anchor);
        crate::date::lemma_day_index_range(today);
    }
    if anchor.is_on_or_before(&today) {
        let mut a: Date = anchor;
        let ghost mut i: int = 0;
        proof {
            crate::date::lemma_year_mono_by_index(a, today);
        }
        let mut s: Date = a.add_months(each);
        proof {
            assert(cycle_anchor(each as int, anchor, 0) == anchor);
            assert(s == month_step(each as int, a));
            assert(cycle_anchor(each as int, anchor, 1) == month_step(
                each as int,
                cycle_anchor(each as int, anchor, 0),
            ));
            assert forall|l: int| 0 <= l <= 1 implies valid_date(
                #[trigger] cycle_anchor(each as int, anchor, l),
            ) by {
                if l == 0 {
                    assert(cycle_anchor(each as int, anchor, l) == anchor);
                } else {
                    assert(cycle_anchor(each as int, anchor, l) == s);
                }
            }
        }
        while !today.is_before(&s)
            invariant
                valid_date(a),
                valid_date(s),
                valid_date(today),
                each >= 1,
                i >= 0,
                a == cycle_anchor(each as int, anchor, i),
                s == cycle_anchor(each as int, anchor, i + 1),
                chain_valid_between(each as int, anchor, 0, i + 1),
                day_index(a) <= day_index(today),
                12 * today.year + 24 + each <= 12 * MAX_YEAR,
            decreases day_index(today) - day_index(a),
        {
            proof {
                lemma_month_step_exact(each as int, a);
            }
            a = s;
            proof {
                i = i + 1;
                crate::date::lemma_year_mono_by_index(a, today);
            }
            s = a.add_months(each);
            proof {
                assert(s == month_step(each as int, a));
                assert forall|l: int| 0 <= l <= i + 1 implies valid_date(
                    #[trigger] cycle_anchor(each as int, anchor, l),
                ) by {
                    if l == i + 1 {
                        assert(cycle_anchor(each as int, anchor, l) == s);
                    }
                }
            }
        }
        let hi = s.prev_day();
        proof {
            assert(month_window_at(each as int, anchor, i, a, hi));
            assert(is_month_window(each as int, anchor, a, hi));
        }
        (a, hi)
    } else {
        let mut a: Date = anchor;
        let ghost mut i: int = 0;
        proof {
            crate::date::lemma_year_mono_by_index(today, a);
        }
        let mut b: Date = a.sub_months(each);
        proof {
            assert(cycle_anchor(each as int, anchor, 0) == anchor);
            assert(b == month_back_step(each as int, a));
            assert(cycle_anchor(each as int, anchor, -1) == month_back_step(
                each as int,
                cycle_anchor(each as int, anchor, 0),
            ));
            assert forall|l: int| -1 <= l <= 0 implies valid_date(
                #[trigger] cycle_anchor(each as int, anchor, l),
            ) by {
                if l == 0 {
                    assert(cycle_anchor(each as int, anchor, l) == anchor);
                } else {
                    assert(cycle_anchor(each as int, anchor, l) == b);
                }
            }
            crate::date::lemma_day_index_range(a);
        }
        while !b.is_on_or_before(&today)
            invariant
                valid_date(a),
                valid_date(b),
                valid_date(today),
                each >= 1,
                i <= 0,
                a == cycle_anchor(each as int, anchor, i),
                b == cycle_anchor(each as int, anchor, i - 1),
                chain_valid_between(each as int, anchor, i - 1, 0),
                day_index(a) > day_index(today),
                day_index(today) >= 0,
                12 * MIN_YEAR + 12 + each <= 12 * today.year,
            decreases day_index(a),
        {
            proof {
                lemma_month_back_step_exact(each as int, a);
            }
            a = b;
            proof {
                i = i - 1;
                crate::date::lemma_year_mono_by_index(today, a);
            }
            b = a.sub_months(each);
            proof {
                assert(b == month_back_step(each as int, a));
                assert(cycle_anchor(each as int, anchor, i - 1) == month_back_step(
                    each as int,
                    cycle_anchor(each as int, anchor, i),
                ));
                assert forall|l: int| i - 1 <= l <= 0 implies valid_date(
                    #[trigger] cycle_anchor(each as int, anchor, l),
                ) by {
                    if l == i - 1 {
                        assert(cycle_anchor(each as int, anchor, l) == b);
                    }
                }
            }
        }
        let hi = a.prev_day();
        proof {
            assert(month_window_at(each as int, anchor, i - 1, b, hi));
            assert(is_month_window(each as int, anchor, b, hi));
        }
        (b, hi)
    }
}

} // verus!
