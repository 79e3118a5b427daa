use vstd::prelude::*;

use crate::enrollment::Enrollment;
use crate::period::{construct_periods, schedule, schedule_error, ScheduleError};
use crate::reconcile::{calculate_populated_periods, reconciled, PopulatedPeriod};
use crate::share::Share;

verus! {

/// The number of fulfilled periods that end the sequence, counted back from the
/// most recent one up to the first unfulfilled one.
pub open spec fn trailing_streak(r: Seq<PopulatedPeriod>) -> nat
    decreases r.len(),
{
    if r.len() == 0 {
        0
    } else if r.last().1 {
        trailing_streak(r.drop_last()) + 1
    } else {
        0
    }
}

/// The streak of a reconciled sequence, oldest period first.
pub fn calculate_streak(populated: &Vec<PopulatedPeriod>) -> (r: usize)
    ensures
        r == trailing_streak(populated@),
        populated@.len() == 0 ==> r == 0,
        r <= populated@.len(),
{
    let mut n: usize = populated.len();
    assert(populated@.subrange(0, n as int) =~= populated@);
    while n > 0 && populated[n - 1].1
        invariant
            n <= populated@.len(),
            trailing_streak(populated@) == trailing_streak(populated@.subrange(0, n as int)) + (
            populated@.len() - n),
        decreases n,
    {
        proof {
            let s = populated@.subrange(0, n as int);
            assert(s.drop_last() =~= populated@.subrange(0, n - 1));
        }
        n = n - 1;
    }
    proof {
        let s = populated@.subrange(0, n as int);
        if n > 0 {
            assert(!s.last().1);
        }
    }
    populated.len() - n
}

/// The streak of an enrollment at `until`, given its shares in creation order: its
/// periods up to `until` are reconciled against the shares and the trailing run of
/// fulfilled ones is counted.
pub fn get_streak(enrollment: &Enrollment, shares: Vec<Share>, until: i64) -> (r: Result<
    usize,
    ScheduleError,
>)
    ensures
        match r {
            Ok(n) => {
                &&& schedule_error(enrollment.starting_at, enrollment.interval_hours, until) is None
                &&& n == trailing_streak(
                    reconciled(
                        schedule(enrollment.starting_at, enrollment.interval_hours, until),
                        shares@,
                    ),
                )
            },
            Err(e) => schedule_error(enrollment.starting_at, enrollment.interval_hours, until)
                == Some(e),
        },
        enrollment.interval_hours > 0 && until < enrollment.starting_at ==> r == Ok::<
            usize,
            ScheduleError,
        >(0),
{
    let periods = construct_periods(enrollment, until)?;
    let populated = calculate_populated_periods(periods, shares);
    Ok(calculate_streak(&populated))
}

/// The longest streak that still counts as modest.
pub const MODEST_STREAK_MAX: usize = 3;

/// How a streak is to be acknowledged.
#[derive(Clone, Copy, Debug, PartialEq, Eq, Structural)]
pub enum StreakTier {
    /// Nothing shared in the trailing periods.
    NoStreak,
    /// A streak of one up to `MODEST_STREAK_MAX` periods.
    Modest,
    /// A longer streak.
    Strong,
}

/// The tier of a streak of `streak` periods.
pub fn streak_tier(streak: usize) -> (r: StreakTier)
    ensures
        streak == 0 <==> r == StreakTier::NoStreak,
        0 < streak <= MODEST_STREAK_MAX <==> r == StreakTier::Modest,
        streak > MODEST_STREAK_MAX <==> r == StreakTier::Strong,
{
    if streak == 0 {
        StreakTier::NoStreak
    } else if streak <= MODEST_STREAK_MAX {
        StreakTier::Modest
    } else {
        StreakTier::Strong
    }
}

/// When every period is fulfilled the streak is the number of periods.
pub proof fn lemma_streak_all_fulfilled(r: Seq<PopulatedPeriod>)
    requires
        forall|k: int| 0 <= k < r.len() ==> #[trigger] r[k].1,
    ensures
        trailing_streak(r) == r.len(),
    decreases r.len(),
{
    if r.len() > 0 {
        assert(r.last().1);
        lemma_streak_all_fulfilled(r.drop_last());
    }
}

} // verus!
