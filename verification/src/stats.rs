//! Figures computed from the activity log for the home screen and the
//! weekly digest.

use vstd::prelude::*;

verus! {

/// The day before `d`, or `d` itself at the start of the calendar.
pub open spec fn pred_day(d: i64) -> i64 {
    if d > i64::MIN {
        (d - 1) as i64
    } else {
        d
    }
}

/// The length of the run of consecutive days ending at `expected` in the
/// newest-first list `days` (repeated days are skipped; the run stops at the
/// first day older than the one expected).
pub open spec fn run_from(days: Seq<i64>, expected: i64) -> nat
    decreases days.len(),
{
    if days.len() == 0 {
        0
    } else if days[0] == expected {
        1 + run_from(days.drop_first(), pred_day(expected))
    } else if days[0] < expected {
        0
    } else {
        run_from(days.drop_first(), expected)
    }
}

/// The current streak: the run ending today, or ending yesterday when today
/// is not yet marked; no run at all otherwise.
pub open spec fn streak_spec(days: Seq<i64>, today: i64) -> nat {
    if days.len() == 0 {
        0
    } else if days[0] == today {
        run_from(days, today)
    } else if days[0] == pred_day(today) {
        run_from(days, pred_day(today))
    } else {
        0
    }
}

proof fn lemma_run_bound(days: Seq<i64>, expected: i64)
    ensures
        run_from(days, expected) <= days.len(),
    decreases days.len(),
{
    if days.len() > 0 {
        lemma_run_bound(days.drop_first(), pred_day(expected));
        lemma_run_bound(days.drop_first(), expected);
    }
}

/// Current consecutive-day streak ending today (or yesterday if today isn't
/// yet marked). `days_desc` are the protected days, newest first, as day
/// numbers; `today` is the local day number.
pub fn current_streak(days_desc: &Vec<i64>, today: i64) -> (r: u64)
    ensures
        r == streak_spec(days_desc@, today),
        r <= days_desc@.len(),
{
    let ghost ds = days_desc@;
    if days_desc.len() == 0 {
        return 0;
    }
    let yesterday = if today > i64::MIN {
        today - 1
    } else {
        today
    };
    let mut expected = if days_desc[0] == today {
        today
    } else if days_desc[0] == yesterday {
        yesterday
    } else {
        return 0;
    };
    let ghost start = expected;
    let mut streak: u64 = 0;
    let mut i: usize = 0;
    let mut done = false;
    proof {
        lemma_run_bound(ds, start);
        assert(ds.skip(0) =~= ds);
    }
    while i < days_desc.len() && !done
        invariant
            ds == days_desc@,
            i <= ds.len(),
            streak <= i,
            done ==> run_from(ds.skip(i as int), expected) == 0,
            streak + run_from(ds.skip(i as int), expected) == run_from(ds, start),
        decreases ds.len() - i, if done {
            0int
        } else {
            1int
        },
    {
        let d = days_desc[i];
        let ghost rest = ds.skip(i as int);
        assert(rest[0] == d);
        assert(rest.drop_first() =~= ds.skip(i + 1));
        if d == expected {
            streak += 1;
            expected = if expected > i64::MIN {
                expected - 1
            } else {
                expected
            };
            i += 1;
        } else if d < expected {
            done = true;
        } else {
            i += 1;
        }
    }
    if !done {
        assert(ds.skip(i as int) =~= Seq::<i64>::empty());
    }
    assert(ds.skip(0) =~= ds);
    streak
}

/// A streak never counts more days than were ever marked, and is zero unless
/// today or yesterday is the newest marked day.
pub proof fn lemma_streak_bounds(days: Seq<i64>, today: i64)
    ensures
        streak_spec(days, today) <= days.len(),
        days.len() > 0 && days[0] != today && days[0] != pred_day(today) ==> streak_spec(days, today)
            == 0,
{
    lemma_run_bound(days, today);
    lemma_run_bound(days, pred_day(today));
}

} // verus!
