//! Proleptic Gregorian dates, modelled as plain year/month/day values
//! together with their index in the sequence of all days from 0001-01-01.

use vstd::prelude::*;

verus! {

/// Gregorian leap-year rule.
pub open spec fn spec_is_leap_year(y: int) -> bool {
    (y % 4 == 0 && y % 100 != 0) || y % 400 == 0
}

/// Number of days in month `m` of year `y` (months are 1-based).
pub open spec fn spec_days_in_month(y: int, m: int) -> int {
    if m == 2 {
        if spec_is_leap_year(y) {
            29
        } else {
            28
        }
    } else if m == 4 || m == 6 || m == 9 || m == 11 {
        30
    } else {
        31
    }
}

/// A well-formed calendar triple: year at least 1, month 1..=12,
/// day 1..=days-in-month.
pub open spec fn valid_ymd(y: int, m: int, d: int) -> bool {
    &&& y >= 1
    &&& 1 <= m <= 12
    &&& 1 <= d <= spec_days_in_month(y, m)
}

/// Index of a calendar day: 0001-01-01 has index 0, and each following
/// day has the index of its predecessor plus one.
pub open spec fn day_index(y: int, m: int, d: int) -> nat
    decreases y, m, d,
{
    if !valid_ymd(y, m, d) {
        0
    } else if y == 1 && m == 1 && d == 1 {
        0
    } else if d > 1 {
        (day_index(y, m, d - 1) + 1) as nat
    } else if m > 1 {
        (day_index(y, m - 1, spec_days_in_month(y, m - 1)) + 1) as nat
    } else {
        (day_index(y - 1, 12, 31) + 1) as nat
    }
}

/// Weekday of a calendar day, 0 = Monday .. 6 = Sunday.
/// 0001-01-01 of the proleptic Gregorian calendar is a Monday, so the
/// weekday is the day index modulo 7.
pub open spec fn spec_weekday(y: int, m: int, d: int) -> int {
    day_index(y, m, d) as int % 7
}

/// Smallest possible number of days strictly before month `m` in any year
/// (i.e. with February counted as 28 days).
pub open spec fn min_days_before_month(m: int) -> int {
    if m <= 1 {
        0
    } else if m == 2 {
        31
    } else if m == 3 {
        59
    } else if m == 4 {
        90
    } else if m == 5 {
        120
    } else if m == 6 {
        151
    } else if m == 7 {
        181
    } else if m == 8 {
        212
    } else if m == 9 {
        243
    } else if m == 10 {
        273
    } else if m == 11 {
        304
    } else {
        334
    }
}

/// Largest possible number of days strictly before month `m` in any year
/// (i.e. with February counted as 29 days).
pub open spec fn max_days_before_month(m: int) -> int {
    if m <= 1 {
        0
    } else if m == 2 {
        31
    } else if m == 3 {
        60
    } else if m == 4 {
        91
    } else if m == 5 {
        121
    } else if m == 6 {
        152
    } else if m == 7 {
        182
    } else if m == 8 {
        213
    } else if m == 9 {
        244
    } else if m == 10 {
        274
    } else if m == 11 {
        305
    } else {
        335
    }
}

/// Every year spans at most 366 days, which bounds the day index by the year.
pub proof fn lemma_day_index_upper_bound(y: int, m: int, d: int)
    requires
        valid_ymd(y, m, d),
    ensures
        day_index(y, m, d) <= 366 * (y - 1) + max_days_before_month(m) + (d - 1),
    decreases y, m, d,
{
    if y == 1 && m == 1 && d == 1 {
    } else if d > 1 {
        lemma_day_index_upper_bound(y, m, d - 1);
    } else if m > 1 {
        lemma_day_index_upper_bound(y, m - 1, spec_days_in_month(y, m - 1));
    } else {
        lemma_day_index_upper_bound(y - 1, 12, 31);
        assert(366 * (y - 1 - 1) + max_days_before_month(12) + 30 + 1 == 366 * (y - 1)) by {
            assert(366 * (y - 1 - 1) == 366 * (y - 1) - 366) by (nonlinear_arith);
        }
    }
}

/// Every year spans at least 365 days, so the day index grows at least
/// that fast with the year; this bounds the year by the index.
pub proof fn lemma_day_index_lower_bound(y: int, m: int, d: int)
    requires
        valid_ymd(y, m, d),
    ensures
        day_index(y, m, d) >= 365 * (y - 1) + min_days_before_month(m) + (d - 1),
    decreases y, m, d,
{
    if y == 1 && m == 1 && d == 1 {
    } else if d > 1 {
        lemma_day_index_lower_bound(y, m, d - 1);
    } else if m > 1 {
        lemma_day_index_lower_bound(y, m - 1, spec_days_in_month(y, m - 1));
    } else {
        lemma_day_index_lower_bound(y - 1, 12, 31);
        assert(365 * (y - 1 - 1) + min_days_before_month(12) + 30 + 1 == 365 * (y - 1)) by {
            assert(365 * (y - 1 - 1) == 365 * (y - 1) - 365) by (nonlinear_arith);
        }
    }
}

/// Lexicographic order on calendar triples; for valid triples it agrees
/// with the order of the day indices.
pub open spec fn ymd_le(ay: int, am: int, ad: int, by: int, bm: int, bd: int) -> bool {
    ||| ay < by
    ||| (ay == by && am < bm)
    ||| (ay == by && am == bm && ad <= bd)
}

/// Number of days in month `m` of year `y`, as executable code.
pub fn days_in_month(y: u32, m: u8) -> (r: u8)
    requires
        1 <= m <= 12,
    ensures
        r == spec_days_in_month(y as int, m as int),
{
    if m == 2 {
        if (y % 4 == 0 && y % 100 != 0) || y % 400 == 0 {
            29
        } else {
            28
        }
    } else if m == 4 || m == 6 || m == 9 || m == 11 {
        30
    } else {
        31
    }
}

/// A calendar date: the year/month/day triple plus its day index.
///
/// The invariant ties the index to the triple, so date comparison and
/// distance can be read off the `days` field alone.
#[derive(Clone, Copy, Debug)]
pub struct Date {
    pub year: u32,
    pub month: u8,
    pub day: u8,
    pub days: u32,
}

impl Date {
    /// Well-formedness: the triple is a real calendar day and `days` is
    /// its index.
    pub open spec fn wf(self) -> bool {
        &&& valid_ymd(self.year as int, self.month as int, self.day as int)
        &&& self.days == day_index(self.year as int, self.month as int, self.day as int)
    }

    /// The calendar day immediately after `self` (specification level).
    pub open spec fn spec_next(self) -> Date {
        if self.day < spec_days_in_month(self.year as int, self.month as int) {
            Date { day: (self.day + 1) as u8, days: (self.days + 1) as u32, ..self }
        } else if self.month < 12 {
            Date { month: (self.month + 1) as u8, day: 1, days: (self.days + 1) as u32, ..self }
        } else {
            Date {
                year: (self.year + 1) as u32,
                month: 1,
                day: 1,
                days: (self.days + 1) as u32,
            }
        }
    }

    /// The calendar day immediately before `self` (specification level).
    pub open spec fn spec_prev(self) -> Date {
        if self.day > 1 {
            Date { day: (self.day - 1) as u8, days: (self.days - 1) as u32, ..self }
        } else if self.month > 1 {
            Date {
                month: (self.month - 1) as u8,
                day: spec_days_in_month(self.year as int, self.month - 1) as u8,
                days: (self.days - 1) as u32,
                ..self
            }
        } else {
            Date {
                year: (self.year - 1) as u32,
                month: 12,
                day: 31,
                days: (self.days - 1) as u32,
            }
        }
    }

    /// Weekday, 0 = Monday .. 6 = Sunday.
    pub fn weekday(&self) -> (r: u8)
        requires
            self.wf(),
        ensures
            r == spec_weekday(self.year as int, self.month as int, self.day as int),
            r < 7,
    {
        (self.days % 7) as u8
    }

    /// Step one day forward.
    pub fn next_day(&self) -> (r: Date)
        requires
            self.wf(),
            self.days < 0xF000_0000u32,
        ensures
            r.wf(),
            r == self.spec_next(),
            r.days == self.days + 1,
    {
        proof {
            lemma_day_index_lower_bound(self.year as int, self.month as int, self.day as int);
        }
        let dim = days_in_month(self.year, self.month);
        if self.day < dim {
            Date { year: self.year, month: self.month, day: self.day + 1, days: self.days + 1 }
        } else if self.month < 12 {
            Date { year: self.year, month: self.month + 1, day: 1, days: self.days + 1 }
        } else {
            Date { year: self.year + 1, month: 1, day: 1, days: self.days + 1 }
        }
    }

    /// Step one day backward.
    pub fn prev_day(&self) -> (r: Date)
        requires
            self.wf(),
            self.days > 0,
        ensures
            r.wf(),
            r == self.spec_prev(),
            r.days == self.days - 1,
    {
        if self.day > 1 {
            Date { year: self.year, month: self.month, day: self.day - 1, days: self.days - 1 }
        } else if self.month > 1 {
            let dim = days_in_month(self.year, self.month - 1);
            Date { year: self.year, month: self.month - 1, day: dim, days: self.days - 1 }
        } else {
            assert(self.year > 1) by {
                if self.year == 1 {
                    assert(self.days == day_index(1, 1, 1));
                }
            }
            Date { year: self.year - 1, month: 12, day: 31, days: self.days - 1 }
        }
    }

    /// Step `n` days backward.
    pub fn sub_days(&self, n: u32) -> (r: Date)
        requires
            self.wf(),
            n <= self.days,
        ensures
            r.wf(),
            r == date_sub(*self, n as nat),
            r.days == self.days - n,
    {
        let mut cur = *self;
        let mut i: u32 = 0;
        while i < n
            invariant
                cur.wf(),
                i <= n <= self.days,
                cur == date_sub(*self, i as nat),
                cur.days == self.days - i,
            decreases n - i,
        {
            cur = cur.prev_day();
            i = i + 1;
        }
        cur
    }

    /// Build the date with the given calendar triple.
    ///
    /// Walks forward from 0001-01-01, so the result carries the correct
    /// day index by construction.
    pub fn from_ymd(y: u32, m: u8, d: u8) -> (r: Date)
        requires
            valid_ymd(y as int, m as int, d as int),
            y <= 9999,
        ensures
            r.wf(),
            r.year == y && r.month == m && r.day == d,
            r.days == day_index(y as int, m as int, d as int),
    {
        let mut cur = Date { year: 1, month: 1, day: 1, days: 0 };
        while cur.year != y || cur.month != m || cur.day != d
            invariant
                cur.wf(),
                valid_ymd(y as int, m as int, d as int),
                y <= 9999,
                ymd_le(
                    cur.year as int,
                    cur.month as int,
                    cur.day as int,
                    y as int,
                    m as int,
                    d as int,
                ),
            decreases y - cur.year, 12 - cur.month, 31 - cur.day,
        {
            proof {
                lemma_day_index_upper_bound(cur.year as int, cur.month as int, cur.day as int);
                assert(366 * (cur.year - 1) <= 366 * (9999 - 1)) by (nonlinear_arith)
                    requires
                        cur.year <= 9999,
                ;
            }
            let next = cur.next_day();
            proof {
                // The successor is still lexicographically at or below the
                // target: a valid target strictly above `cur` cannot sit
                // between `cur` and its calendar successor.
                if next.year == y && next.month == m {
                    assert(d >= next.day);
                }
            }
            cur = next;
        }
        cur
    }
}

/// The date `n` days after `d` (specification level).
pub open spec fn date_add(d: Date, n: nat) -> Date
    decreases n,
{
    if n == 0 {
        d
    } else {
        date_add(d, (n - 1) as nat).spec_next()
    }
}

/// The date `n` days before `d` (specification level).
pub open spec fn date_sub(d: Date, n: nat) -> Date
    decreases n,
{
    if n == 0 {
        d
    } else {
        date_sub(d, (n - 1) as nat).spec_prev()
    }
}

} // verus!
