use vstd::prelude::*;

use vstd::string::StringSliceAdditionalSpecFns;

use crate::period::{ScheduleError, MICROS_PER_HOUR};

verus! {

/// The interval used when an enrollment names none.
pub const DEFAULT_INTERVAL_HOURS: i64 = 24;

/// The longest start text, in bytes, that is handed to the date resolver.
pub const MAX_START_TEXT_BYTES: usize = 500;

/// A user's recurring commitment in one guild. Instants are microseconds since the
/// Unix epoch; `starting_at` is the end of the first period.
#[derive(Clone, Debug)]
pub struct Enrollment {
    pub id: i64,
    pub guild_id: String,
    pub user_id: String,
    pub channel_id: String,
    pub created_at: i64,
    pub starting_at: i64,
    pub interval_hours: i64,
}

/// How a new enrollment's start is to be settled.
#[derive(Clone, Copy, Debug, PartialEq, Eq, Structural)]
pub struct EnrollmentPlan {
    /// The interval of the new enrollment, in hours.
    pub interval_hours: i64,
    /// The start used when no resolved instant is at hand: one interval after now.
    pub fallback: i64,
    /// Whether the start text is to be handed to the date resolver.
    pub resolve_text: bool,
}

pub open spec fn requested_interval(interval: Option<i64>) -> i64 {
    match interval {
        Some(h) => h,
        None => DEFAULT_INTERVAL_HOURS,
    }
}

pub open spec fn text_is_resolvable(start: Option<&str>) -> bool {
    match start {
        Some(s) => s.spec_bytes().len() <= MAX_START_TEXT_BYTES as nat,
        None => false,
    }
}

/// Settles the interval of a new enrollment made at `now`, and whether its start
/// text goes to the date resolver. A missing interval is one day; a missing start,
/// or a text over the length limit, starts one interval after now.
pub fn plan_enrollment(now: i64, start: Option<&str>, interval: Option<i64>) -> (r: Result<
    EnrollmentPlan,
    ScheduleError,
>)
    ensures
        requested_interval(interval) <= 0 <==> r == Err::<EnrollmentPlan, ScheduleError>(
            ScheduleError::InvalidSchedule,
        ),
        requested_interval(interval) > 0 && (requested_interval(interval) > i64::MAX
            / MICROS_PER_HOUR || now + requested_interval(interval) * MICROS_PER_HOUR > i64::MAX)
            <==> r == Err::<EnrollmentPlan, ScheduleError>(ScheduleError::OutOfRange),
        r matches Ok(plan) ==> plan == (EnrollmentPlan {
            interval_hours: requested_interval(interval),
            fallback: (now + requested_interval(interval) * MICROS_PER_HOUR) as i64,
            resolve_text: text_is_resolvable(start),
        }),
{
    let interval_hours: i64 = match interval {
        Some(h) => h,
        None => DEFAULT_INTERVAL_HOURS,
    };
    if interval_hours <= 0 {
        return Err(ScheduleError::InvalidSchedule);
    }
    if interval_hours > i64::MAX / MICROS_PER_HOUR {
        return Err(ScheduleError::OutOfRange);
    }
    let step: i64 = interval_hours * MICROS_PER_HOUR;
    if now > i64::MAX - step {
        return Err(ScheduleError::OutOfRange);
    }
    let resolve_text = match start {
        Some(s) => s.as_bytes().len() <= MAX_START_TEXT_BYTES,
        None => false,
    };
    Ok(EnrollmentPlan { interval_hours, fallback: now + step, resolve_text })
}

/// The start of a new enrollment: the resolved instant where the plan asked for one
/// and the resolver gave one, else the plan's fallback.
pub fn resolve_starting_at(plan: &EnrollmentPlan, resolved: Option<i64>) -> (r: i64)
    ensures
        r == (match resolved {
            Some(t) if plan.resolve_text => t,
            _ => plan.fallback,
        }),
{
    match resolved {
        Some(t) if plan.resolve_text => t,
        _ => plan.fallback,
    }
}

/// The instant that an RFC 3339 text names, in microseconds since the Unix epoch.
pub uninterp spec fn rfc3339_micros(s: Seq<char>) -> Option<i64>;

/// Relies on chrono's `DateTime::parse_from_rfc3339` and `DateTime::timestamp_micros`:
/// the instant that the text names, in whole microseconds, or nothing where it is not
/// an RFC 3339 date and time. The result depends on the text alone.
#[verifier::external_body]
fn parse_rfc3339_micros(s: &str) -> (r: Option<i64>)
    ensures
        r == rfc3339_micros(s@),
{
    chrono::DateTime::parse_from_rfc3339(s).ok().map(|d| d.timestamp_micros())
}

/// The start of a new enrollment from the date resolver's reply: the instant the
/// reply names where it is an RFC 3339 date and time, else the plan's fallback.
pub fn starting_at_from_reply(plan: &EnrollmentPlan, reply: &str) -> (r: i64)
    ensures
        r == (match rfc3339_micros(reply@) {
            Some(t) if plan.resolve_text => t,
            _ => plan.fallback,
        }),
{
    let resolved = parse_rfc3339_micros(reply);
    resolve_starting_at(plan, resolved)
}

} // verus!
