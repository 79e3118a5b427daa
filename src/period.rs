use vstd::prelude::*;

use crate::enrollment::Enrollment;

verus! {

/// Microseconds in one hour; instants are counted in microseconds.
pub const MICROS_PER_HOUR: i64 = 3_600_000_000;

/// Grace after a period's end, in microseconds per hour of interval: half the interval.
pub const GRACE_MICROS_PER_INTERVAL_HOUR: i64 = 1_800_000_000;

/// One accountability window `(start, end]`, with a grace boundary `deadline`.
/// Instants are microseconds since the Unix epoch.
#[derive(Clone, Copy, Debug, PartialEq, Eq, Structural)]
pub struct Period {
    pub start: i64,
    pub end: i64,
    pub deadline: i64,
}

/// Why a schedule yields no periods.
#[derive(Clone, Copy, Debug, PartialEq, Eq, Structural)]
pub enum ScheduleError {
    /// The interval is not a positive number of hours.
    InvalidSchedule,
    /// Some instant of the schedule up to the horizon does not fit in an `i64`.
    OutOfRange,
}

pub open spec fn interval_micros(interval_hours: int) -> int {
    interval_hours * MICROS_PER_HOUR
}

pub open spec fn grace_micros(interval_hours: int) -> int {
    interval_hours * GRACE_MICROS_PER_INTERVAL_HOUR
}

/// The `k`-th period of the schedule: its end is `starting_at + k * interval`.
pub open spec fn period_at(starting_at: i64, interval_hours: i64, k: int) -> Period {
    let end = starting_at + k * interval_micros(interval_hours as int);
    Period {
        start: (end - interval_micros(interval_hours as int)) as i64,
        end: end as i64,
        deadline: (end + grace_micros(interval_hours as int)) as i64,
    }
}

/// How many periods end at or before `until`.
pub open spec fn period_count(starting_at: i64, interval_hours: i64, until: i64) -> nat {
    if until < starting_at {
        0
    } else {
        ((until - starting_at) / interval_micros(interval_hours as int) + 1) as nat
    }
}

/// The periods of the schedule up to `until`.
pub open spec fn schedule(starting_at: i64, interval_hours: i64, until: i64) -> Seq<Period> {
    Seq::new(
        period_count(starting_at, interval_hours, until),
        |k: int| period_at(starting_at, interval_hours, k),
    )
}

/// The error that generating the schedule meets, if any.
pub open spec fn schedule_error(starting_at: i64, interval_hours: i64, until: i64) -> Option<
    ScheduleError,
> {
    if interval_hours <= 0 {
        Some(ScheduleError::InvalidSchedule)
    } else if !schedule_fits(starting_at, interval_hours, until) {
        Some(ScheduleError::OutOfRange)
    } else {
        None
    }
}

/// Every instant the generator computes fits in an `i64`. Nothing is computed
/// when the horizon lies before the start.
pub open spec fn schedule_fits(starting_at: i64, interval_hours: i64, until: i64) -> bool {
    until >= starting_at ==> {
        &&& interval_hours <= i64::MAX / MICROS_PER_HOUR
        &&& starting_at - interval_micros(interval_hours as int) >= i64::MIN
        &&& until + interval_micros(interval_hours as int) <= i64::MAX
    }
}

/// The periods of the enrollment's schedule: their ends are `starting_at`,
/// `starting_at + interval`, ... up to and including `until`. Each spans the
/// interval and its deadline lies half an interval after its end. A non-positive
/// interval is rejected before any period is made.
pub fn construct_periods(enrollment: &Enrollment, until: i64) -> (r: Result<
    Vec<Period>,
    ScheduleError,
>)
    ensures
        match r {
            Ok(ps) => {
                &&& schedule_error(enrollment.starting_at, enrollment.interval_hours, until) is None
                &&& ps@ == schedule(enrollment.starting_at, enrollment.interval_hours, until)
            },
            Err(e) => schedule_error(enrollment.starting_at, enrollment.interval_hours, until)
                == Some(e),
        },
        enrollment.interval_hours > 0 && until < enrollment.starting_at ==> (r matches Ok(ps)
            && ps@.len() == 0),
        r matches Ok(ps) ==> {
            let step = interval_micros(enrollment.interval_hours as int);
            &&& until >= enrollment.starting_at ==> ps@.len() == (until - enrollment.starting_at)
                / step + 1
            &&& forall|k: int|
                0 <= k < ps@.len() ==> {
                    &&& (#[trigger] ps@[k]).end == enrollment.starting_at + k * step
                    &&& ps@[k].end - ps@[k].start == step
                    &&& ps@[k].deadline == ps@[k].end + step / 2
                    &&& k + 1 < ps@.len() ==> ps@[k].end == ps@[k + 1].start
                }
        },
{
    let starting_at = enrollment.starting_at;
    let interval_hours = enrollment.interval_hours;
    if interval_hours <= 0 {
        return Err(ScheduleError::InvalidSchedule);
    }
    let mut periods: Vec<Period> = Vec::new();
    if until < starting_at {
        assert(periods@ =~= schedule(starting_at, interval_hours, until));
        return Ok(periods);
    }
    if interval_hours > i64::MAX / MICROS_PER_HOUR {
        return Err(ScheduleError::OutOfRange);
    }
    let step: i64 = interval_hours * MICROS_PER_HOUR;
    let grace: i64 = interval_hours * GRACE_MICROS_PER_INTERVAL_HOUR;
    if starting_at < i64::MIN + step || until > i64::MAX - step {
        return Err(ScheduleError::OutOfRange);
    }
    let count: Ghost<nat> = Ghost(period_count(starting_at, interval_hours, until));
    let mut end: i64 = starting_at;
    while end <= until
        invariant
            step == interval_micros(interval_hours as int),
            grace == grace_micros(interval_hours as int),
            0 < interval_hours <= i64::MAX / MICROS_PER_HOUR,
            starting_at <= until,
            starting_at - step >= i64::MIN,
            until + step <= i64::MAX,
            end == starting_at + periods@.len() * step,
            end <= until + step,
            count@ == period_count(starting_at, interval_hours, until),
            periods@.len() <= count@,
            end <= until ==> periods@.len() < count@,
            end > until ==> periods@.len() == count@,
            forall|k: int|
                0 <= k < periods@.len() ==> #[trigger] periods@[k] == period_at(
                    starting_at,
                    interval_hours,
                    k,
                ),
        decreases count@ - periods@.len(),
    {
        proof {
            lemma_count_step(starting_at as int, step as int, until as int, periods@.len() as int);
            lemma_count_step(starting_at as int, step as int, until as int, periods@.len() as int + 1);
        }
        periods.push(Period { start: end - step, end, deadline: end + grace });
        end = end + step;
    }
    assert(periods@ =~= schedule(starting_at, interval_hours, until));
    proof {
        lemma_schedule_shape(starting_at, interval_hours, until);
    }
    Ok(periods)
}

/// The shape of a schedule that fits: for `until >= starting_at` it has
/// `floor((until - starting_at) / interval) + 1` periods, none before that; each spans
/// the interval, ends at or before `until` and where the next starts, and has its
/// deadline half an interval after its end.
pub proof fn lemma_schedule_shape(starting_at: i64, interval_hours: i64, until: i64)
    requires
        schedule_error(starting_at, interval_hours, until) is None,
    ensures
        ({
            let periods = schedule(starting_at, interval_hours, until);
            let step = interval_micros(interval_hours as int);
            &&& until >= starting_at ==> periods.len() == (until - starting_at) / step + 1
            &&& until < starting_at ==> periods.len() == 0
            &&& forall|k: int|
                0 <= k < periods.len() ==> {
                    &&& (#[trigger] periods[k]).end == starting_at + k * step
                    &&& periods[k].end <= until
                    &&& periods[k].end - periods[k].start == step
                    &&& periods[k].deadline == periods[k].end + step / 2
                    &&& k + 1 < periods.len() ==> periods[k].end == periods[k + 1].start
                }
        }),
{
    let periods = schedule(starting_at, interval_hours, until);
    let step = interval_micros(interval_hours as int);
    if until >= starting_at {
        let count = period_count(starting_at, interval_hours, until) as int;
        assert forall|k: int| 0 <= k < periods.len() implies {
            &&& (#[trigger] periods[k]).end == starting_at + k * step
            &&& periods[k].end <= until
            &&& periods[k].end - periods[k].start == step
            &&& periods[k].deadline == periods[k].end + step / 2
            &&& k + 1 < periods.len() ==> periods[k].end == periods[k + 1].start
        } by {
            lemma_end_bounds(starting_at as int, step, until as int, k, count);
            assert(starting_at + (k + 1) * step == starting_at + k * step + step)
                by (nonlinear_arith);
            if k + 1 < periods.len() {
                lemma_end_bounds(starting_at as int, step, until as int, k + 1, count);
            }
        }
    }
}

/// With `n` periods already produced and the end of the next one `starting_at + n*step`
/// at or before `until`, the count is `n + 1` if the end after it passes `until`.
proof fn lemma_count_step(starting_at: int, step: int, until: int, n: int)
    requires
        step > 0,
        n >= 0,
        starting_at <= until,
    ensures
        starting_at + n * step <= until <==> n < (until - starting_at) / step + 1,
        starting_at + n * step + step == starting_at + (n + 1) * step,
{
    let d = until - starting_at;
    assert(starting_at + n * step + step == starting_at + (n + 1) * step) by (nonlinear_arith);
    assert(n * step <= d <==> n < d / step + 1) by (nonlinear_arith)
        requires
            step > 0,
            n >= 0,
            d >= 0,
    {
        assert(d == (d / step) * step + d % step);
        assert(0 <= d % step < step);
        if n <= d / step {
            assert(n * step <= (d / step) * step);
        } else {
            assert(n >= d / step + 1);
            assert(n * step >= (d / step + 1) * step);
        }
    }
}

/// The `k`-th end stays between `starting_at` and `until` when `k` is below the count.
proof fn lemma_end_bounds(starting_at: int, step: int, until: int, k: int, count: int)
    requires
        step > 0,
        0 <= k < count,
        starting_at <= until,
        count == (until - starting_at) / step + 1,
    ensures
        starting_at <= starting_at + k * step <= until,
{
    lemma_count_step(starting_at, step, until, k);
    assert(k * step >= 0) by (nonlinear_arith)
        requires
            k >= 0,
            step > 0,
    ;
}

} // verus!
