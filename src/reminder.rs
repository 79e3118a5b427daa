use vstd::prelude::*;

use crate::enrollment::Enrollment;
use crate::period::{
    construct_periods, interval_micros, lemma_schedule_shape, schedule, schedule_error, Period,
    ScheduleError,
};
use crate::reconcile::{calculate_populated_periods, reconciled};
use crate::share::Share;

verus! {

/// Where a due reminder goes: a user and a channel, by their numeric ids.
#[derive(Clone, Copy, Debug, PartialEq, Eq, Structural)]
pub struct Reminder {
    pub user_id: u64,
    pub channel_id: u64,
}

/// The periods that end before `end`: the schedule up to `end`, less a last period
/// that ends exactly at `end`, which belongs to the next polling window.
pub open spec fn periods_before(starting_at: i64, interval_hours: i64, end: i64) -> Seq<Period> {
    let periods = schedule(starting_at, interval_hours, end);
    if periods.len() > 0 && periods.last().end == end {
        periods.drop_last()
    } else {
        periods
    }
}

/// Whether the schedule has reached the polling window `[start, end)`: some period
/// ends before `end`, and the last of them ends at or after `start`.
pub open spec fn reaches_window(starting_at: i64, interval_hours: i64, start: i64, end: i64) -> bool {
    let periods = periods_before(starting_at, interval_hours, end);
    &&& periods.len() > 0
    &&& start <= periods.last().end
}

/// Whether a reminder is due for the polling window `[start, end)`: the schedule
/// has reached the window and the reconciliation leaves the last period that ends
/// in it unfulfilled.
pub open spec fn is_reminder_due(
    starting_at: i64,
    interval_hours: i64,
    shares: Seq<Share>,
    start: i64,
    end: i64,
) -> bool {
    &&& reaches_window(starting_at, interval_hours, start, end)
    &&& !reconciled(periods_before(starting_at, interval_hours, end), shares).last().1
}

/// The enrollment's periods that end before `end`.
fn construct_periods_before(enrollment: &Enrollment, end: i64) -> (r: Result<
    Vec<Period>,
    ScheduleError,
>)
    ensures
        match r {
            Ok(ps) => {
                &&& schedule_error(enrollment.starting_at, enrollment.interval_hours, end) is None
                &&& ps@ == periods_before(enrollment.starting_at, enrollment.interval_hours, end)
            },
            Err(e) => schedule_error(enrollment.starting_at, enrollment.interval_hours, end)
                == Some(e),
        },
{
    let mut periods = construct_periods(enrollment, end)?;
    if periods.len() > 0 && periods[periods.len() - 1].end == end {
        periods.pop();
    }
    Ok(periods)
}

/// Whether the enrollment's schedule has reached the polling window `[start, end)`.
/// Where it has not, no reminder is due whatever the shares are.
pub fn schedule_reaches_window(enrollment: &Enrollment, start: i64, end: i64) -> (r: Result<
    bool,
    ScheduleError,
>)
    ensures
        match r {
            Ok(reached) => {
                &&& schedule_error(enrollment.starting_at, enrollment.interval_hours, end) is None
                &&& reached == reaches_window(
                    enrollment.starting_at,
                    enrollment.interval_hours,
                    start,
                    end,
                )
            },
            Err(e) => schedule_error(enrollment.starting_at, enrollment.interval_hours, end)
                == Some(e),
        },
        r == Ok::<bool, ScheduleError>(false) ==> forall|shares: Seq<Share>|
            !is_reminder_due(enrollment.starting_at, enrollment.interval_hours, shares, start, end),
{
    let periods = construct_periods_before(enrollment, end)?;
    Ok(periods.len() > 0 && start <= periods[periods.len() - 1].end)
}

/// Whether a reminder is due for the enrollment in the polling window `[start, end)`,
/// given its shares in creation order.
pub fn reminder_due(enrollment: &Enrollment, shares: Vec<Share>, start: i64, end: i64) -> (r:
    Result<bool, ScheduleError>)
    ensures
        match r {
            Ok(due) => {
                &&& schedule_error(enrollment.starting_at, enrollment.interval_hours, end) is None
                &&& due == is_reminder_due(
                    enrollment.starting_at,
                    enrollment.interval_hours,
                    shares@,
                    start,
                    end,
                )
            },
            Err(e) => schedule_error(enrollment.starting_at, enrollment.interval_hours, end)
                == Some(e),
        },
{
    let periods = construct_periods_before(enrollment, end)?;
    if periods.len() == 0 {
        return Ok(false);
    }
    if periods[periods.len() - 1].end < start {
        return Ok(false);
    }
    let populated = calculate_populated_periods(periods, shares);
    Ok(!populated[populated.len() - 1].1)
}

/// The period that a tick inspects ends inside the tick's window `[start, end)`.
pub proof fn lemma_inspected_period_in_window(
    starting_at: i64,
    interval_hours: i64,
    start: i64,
    end: i64,
)
    requires
        schedule_error(starting_at, interval_hours, end) is None,
        reaches_window(starting_at, interval_hours, start, end),
    ensures
        start <= periods_before(starting_at, interval_hours, end).last().end < end,
{
    let all = schedule(starting_at, interval_hours, end);
    let n = all.len() as int;
    lemma_schedule_shape(starting_at, interval_hours, end);
    assert(all[n - 1].end <= end);
    if all.last().end == end {
        assert(n >= 2);
        assert(all[n - 2].end == all[n - 1].start);
        assert(all[n - 1].end - all[n - 1].start == interval_micros(interval_hours as int));
        assert(interval_micros(interval_hours as int) > 0) by (nonlinear_arith)
            requires
                interval_hours > 0,
        ;
    }
}

/// Over two contiguous ticks `[t0, t1)` and `[t1, t2)` no period is inspected twice:
/// the period inspected in the second ends after the one inspected in the first.
pub proof fn lemma_contiguous_ticks_inspect_distinct_periods(
    starting_at: i64,
    interval_hours: i64,
    t0: i64,
    t1: i64,
    t2: i64,
)
    requires
        t0 <= t1 <= t2,
        schedule_error(starting_at, interval_hours, t1) is None,
        schedule_error(starting_at, interval_hours, t2) is None,
        reaches_window(starting_at, interval_hours, t0, t1),
        reaches_window(starting_at, interval_hours, t1, t2),
    ensures
        periods_before(starting_at, interval_hours, t1).last().end < periods_before(
            starting_at,
            interval_hours,
            t2,
        ).last().end,
{
    lemma_inspected_period_in_window(starting_at, interval_hours, t0, t1);
    lemma_inspected_period_in_window(starting_at, interval_hours, t1, t2);
}

pub open spec fn is_digit(c: char) -> bool {
    '0' <= c && c <= '9'
}

/// The number that a sequence of decimal digits writes.
pub open spec fn decimal_value(s: Seq<char>) -> nat
    decreases s.len(),
{
    if s.len() == 0 {
        0
    } else {
        decimal_value(s.drop_last()) * 10 + (s.last() as nat - '0' as nat) as nat
    }
}

/// What `str::parse::<u64>` gives: an optional `+` followed by one or more decimal
/// digits whose value fits in a `u64`.
pub open spec fn parsed_u64(s: Seq<char>) -> Option<u64> {
    let digits = if s.len() > 0 && s[0] == '+' {
        s.skip(1)
    } else {
        s
    };
    if digits.len() > 0 && (forall|i: int| 0 <= i < digits.len() ==> is_digit(#[trigger] digits[i]))
        && decimal_value(digits) <= u64::MAX {
        Some(decimal_value(digits) as u64)
    } else {
        None
    }
}

/// Relies on `str::parse::<u64>`: an optional `+` and then decimal digits only, with
/// a value that fits; anything else is an error.
#[verifier::external_body]
fn parse_id(s: &str) -> (r: Option<u64>)
    ensures
        r == parsed_u64(s@),
{
    s.parse::<u64>().ok()
}

/// Where the enrollment's reminder goes, where its user and channel ids are numbers.
pub fn reminder_target(enrollment: &Enrollment) -> (r: Option<Reminder>)
    ensures
        r == reminder_target_of(enrollment),
{
    let user_id = parse_id(enrollment.user_id.as_str());
    let channel_id = parse_id(enrollment.channel_id.as_str());
    match (user_id, channel_id) {
        (Some(user_id), Some(channel_id)) => Some(Reminder { user_id, channel_id }),
        _ => None,
    }
}

pub open spec fn reminder_target_of(enrollment: &Enrollment) -> Option<Reminder> {
    match (parsed_u64(enrollment.user_id@), parsed_u64(enrollment.channel_id@)) {
        (Some(user_id), Some(channel_id)) => Some(Reminder { user_id, channel_id }),
        _ => None,
    }
}

/// The reminders for the first `n` enrollments, each with its shares, in order; or
/// the first schedule error among them.
pub open spec fn reminders_upto(
    entries: Seq<(Enrollment, Vec<Share>)>,
    start: i64,
    end: i64,
    n: int,
) -> Result<Seq<Reminder>, ScheduleError>
    decreases n,
{
    if n <= 0 {
        Ok(Seq::empty())
    } else {
        match reminders_upto(entries, start, end, n - 1) {
            Err(e) => Err(e),
            Ok(rs) => {
                let enrollment = entries[n - 1].0;
                match schedule_error(enrollment.starting_at, enrollment.interval_hours, end) {
                    Some(e) => Err(e),
                    None => {
                        if is_reminder_due(
                            enrollment.starting_at,
                            enrollment.interval_hours,
                            entries[n - 1].1@,
                            start,
                            end,
                        ) {
                            match reminder_target_of(&enrollment) {
                                Some(t) => Ok(rs.push(t)),
                                None => Ok(rs),
                            }
                        } else {
                            Ok(rs)
                        }
                    },
                }
            },
        }
    }
}

/// Once a schedule error is met, it is the result for every longer prefix.
proof fn lemma_error_persists(
    entries: Seq<(Enrollment, Vec<Share>)>,
    start: i64,
    end: i64,
    n: int,
    m: int,
)
    requires
        0 <= n <= m,
        reminders_upto(entries, start, end, n) is Err,
    ensures
        reminders_upto(entries, start, end, m) == reminders_upto(entries, start, end, n),
    decreases m - n,
{
    if m > n {
        lemma_error_persists(entries, start, end, n, m - 1);
    }
}

/// The reminders due in the polling window `[start, end)`, in the order of the
/// enrollments, each given with its shares in creation order. An enrollment whose
/// user or channel id is not a number gets none.
pub fn get_reminders(entries: &Vec<(Enrollment, Vec<Share>)>, start: i64, end: i64) -> (r: Result<
    Vec<Reminder>,
    ScheduleError,
>)
    ensures
        match r {
            Ok(rs) => reminders_upto(entries@, start, end, entries@.len() as int) == Ok::<
                Seq<Reminder>,
                ScheduleError,
            >(rs@),
            Err(e) => reminders_upto(entries@, start, end, entries@.len() as int) == Err::<
                Seq<Reminder>,
                ScheduleError,
            >(e),
        },
{
    let mut reminders: Vec<Reminder> = Vec::new();
    let mut i: usize = 0;
    while i < entries.len()
        invariant
            i <= entries@.len(),
            reminders_upto(entries@, start, end, i as int) == Ok::<Seq<Reminder>, ScheduleError>(
                reminders@,
            ),
        decreases entries@.len() - i,
    {
        let enrollment = &entries[i].0;
        let due = match reminder_due(enrollment, entries[i].1.clone(), start, end) {
            Ok(due) => due,
            Err(e) => {
                proof {
                    lemma_error_persists(entries@, start, end, i as int + 1, entries@.len() as int);
                }
                return Err(e);
            },
        };
        if due {
            if let Some(target) = reminder_target(enrollment) {
                reminders.push(target);
            }
        }
        i = i + 1;
    }
    Ok(reminders)
}

} // verus!
