//! What holds of elapsed times.

use crate::model::{days_between, hours_between, minutes_between, seconds_between};
use vstd::prelude::*;

verus! {

/// A moment is so many whole days ago exactly where so many times a day's nanoseconds have gone by
/// since, and likewise for hours, minutes and seconds.
pub proof fn whole_units_have_gone_by(now: i64, then: i64, n: int)
    requires
        n >= 1,
    ensures
        days_between(now, then) >= n <==> now - then >= n * 86_400_000_000_000,
        hours_between(now, then) >= n <==> now - then >= n * 3_600_000_000_000,
        minutes_between(now, then) >= n <==> now - then >= n * 60_000_000_000,
        seconds_between(now, then) >= n <==> now - then >= n * 1_000_000_000,
{
}

/// A moment that lies ahead is as far off as it would be behind.
pub proof fn times_ahead_mirror_times_behind(now: i64, then: i64)
    ensures
        days_between(now, then) == -days_between(then, now),
        hours_between(now, then) == -hours_between(then, now),
        minutes_between(now, then) == -minutes_between(then, now),
        seconds_between(now, then) == -seconds_between(then, now),
{
}

} // verus!
