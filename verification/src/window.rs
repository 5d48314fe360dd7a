//! The date window calculator: turns (today, start-day policy, week count)
//! into the inclusive-exclusive range of dates the grid shows.

use vstd::prelude::*;
use crate::config::StartDay;
use crate::date::{date_add, date_sub, day_index, spec_weekday, valid_ymd, Date};

verus! {

/// Upper bound on `today.days` accepted by the window calculator, leaving
/// room to step `7 * weeks` days forward without leaving `u32`.
pub open spec fn spec_days_limit() -> int {
    0xE000_0000
}

/// What the calculator asks of its inputs: stepping back up to six days
/// must stay inside the calendar, a weekday policy must name a weekday,
/// and stepping forward must stay inside the day-index range.
pub open spec fn window_inputs_ok(today: Date, policy: StartDay) -> bool {
    &&& today.wf()
    &&& today.days < spec_days_limit()
    &&& match policy {
        StartDay::DayOfWeek(w) => w < 7 && today.days >= 6,
        StartDay::DayOfMonth(_) => true,
        StartDay::Today => true,
    }
}

/// The policy-determined first day of the window.
pub open spec fn spec_start(today: Date, policy: StartDay) -> Date {
    match policy {
        StartDay::Today => today,
        StartDay::DayOfWeek(w) => date_sub(
            today,
            ((today.days as int % 7 + 7 - w) % 7) as nat,
        ),
        StartDay::DayOfMonth(_) => Date {
            day: 1,
            days: (today.days - (today.day - 1)) as u32,
            ..today
        },
    }
}

/// The window as a sequence: `7 * weeks` consecutive dates from the start.
pub open spec fn spec_window(today: Date, policy: StartDay, weeks: int) -> Seq<Date> {
    Seq::new((7 * weeks) as nat, |i: int| date_add(spec_start(today, policy), i as nat))
}

/// Day index of a date `d - 1` days into a month equals the index of the
/// first of that month plus `d - 1`.
proof fn lemma_day_index_within_month(y: int, m: int, d: int)
    requires
        valid_ymd(y, m, d),
    ensures
        day_index(y, m, d) == day_index(y, m, 1) + (d - 1),
    decreases d,
{
    if d > 1 {
        lemma_day_index_within_month(y, m, d - 1);
    }
}

/// Compute the first day of the window.
///
/// For a weekday policy the result is the most recent occurrence of that
/// weekday on or before today: it carries the requested weekday, does not
/// lie after today, and lies less than seven days back.
pub fn start_date(today: &Date, policy: &StartDay) -> (r: Date)
    requires
        window_inputs_ok(*today, *policy),
    ensures
        r.wf(),
        r == spec_start(*today, *policy),
        r.days <= today.days,
        today.days - r.days < 7 || matches!(policy, StartDay::DayOfMonth(_)),
        match *policy {
            StartDay::Today => r == *today,
            StartDay::DayOfWeek(w) => spec_weekday(
                r.year as int,
                r.month as int,
                r.day as int,
            ) == w,
            StartDay::DayOfMonth(_) => r.year == today.year && r.month == today.month && r.day
                == 1,
        },
{
    match policy {
        StartDay::Today => *today,
        StartDay::DayOfWeek(w) => {
            let wd: u32 = today.days % 7;
            let k: u32 = (wd + 7 - (*w as u32)) % 7;
            let r = today.sub_days(k);
            proof {
                let dd = today.days as int;
                assert(dd == 7 * (dd / 7) + dd % 7) by (nonlinear_arith);
                let q = dd / 7;
                if wd >= *w {
                    assert(k == wd - *w);
                    assert(r.days as int == 7 * q + *w);
                    vstd::arithmetic::div_mod::lemma_mod_multiples_vanish(q, *w as int, 7);
                } else {
                    assert(k == wd + 7 - *w);
                    assert(r.days as int == 7 * (q - 1) + *w);
                    vstd::arithmetic::div_mod::lemma_mod_multiples_vanish(q - 1, *w as int, 7);
                }
            }
            r
        },
        StartDay::DayOfMonth(_) => {
            proof {
                lemma_day_index_within_month(today.year as int, today.month as int, today.day as int);
            }
            Date {
                year: today.year,
                month: today.month,
                day: 1,
                days: today.days - (today.day as u32 - 1),
            }
        },
    }
}

/// Build the visible window: exactly `7 * weeks` consecutive dates,
/// starting at the policy-determined first day.
pub fn date_window(today: &Date, policy: &StartDay, weeks: u8) -> (r: Vec<Date>)
    requires
        window_inputs_ok(*today, *policy),
    ensures
        r@ == spec_window(*today, *policy, weeks as int),
        r@.len() == 7 * weeks,
        forall|i: int| 0 <= i < r@.len() ==> (#[trigger] r@[i]).wf(),
        forall|i: int| 0 <= i < r@.len() ==> #[trigger] r@[i].days == spec_start(
            *today,
            *policy,
        ).days + i,
        weeks > 0 ==> r@[0] == spec_start(*today, *policy),
{
    let ghost start = spec_start(*today, *policy);
    let mut cur = start_date(today, policy);
    let total: u32 = 7 * (weeks as u32);
    let mut out: Vec<Date> = Vec::new();
    let mut i: u32 = 0;
    while i < total
        invariant
            cur.wf(),
            i <= total == 7 * weeks,
            cur == date_add(start, i as nat),
            cur.days == start.days + i,
            start.days <= today.days < spec_days_limit(),
            out@ == Seq::new(i as nat, |j: int| date_add(start, j as nat)),
            forall|j: int| 0 <= j < i ==> (#[trigger] out@[j]).wf(),
            forall|j: int| 0 <= j < i ==> #[trigger] out@[j].days == start.days + j,
        decreases total - i,
    {
        out.push(cur);
        cur = cur.next_day();
        i = i + 1;
        proof {
            assert(out@ =~= Seq::new(i as nat, |j: int| date_add(start, j as nat)));
        }
    }
    proof {
        assert(out@ =~= spec_window(*today, *policy, weeks as int));
    }
    out
}

} // verus!
