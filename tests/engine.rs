use streak_bot::enrollment::Enrollment;
use streak_bot::period::{construct_periods, Period, ScheduleError};
use streak_bot::reconcile::calculate_populated_periods;
use streak_bot::reminder::{
    get_reminders, reminder_due, reminder_target, schedule_reaches_window, Reminder,
};
use streak_bot::share::Share;
use streak_bot::streak::{calculate_streak, get_streak, streak_tier, StreakTier};

const HOUR: i64 = 3_600_000_000;
const MINUTE: i64 = 60_000_000;
const DAY0: i64 = 1_704_067_200_000_000;
const DAY: i64 = 24 * HOUR;

fn share(id: i64, created_at: i64) -> Share {
    Share { id, enrollment_id: 1, created_at }
}

fn enrollment(starting_at: i64, interval_hours: i64) -> Enrollment {
    Enrollment {
        id: 1,
        guild_id: "10".to_string(),
        user_id: "123".to_string(),
        channel_id: "456".to_string(),
        created_at: starting_at - DAY,
        starting_at,
        interval_hours,
    }
}

fn day_scenario_shares() -> Vec<Share> {
    vec![share(1, DAY0 + 10 * HOUR), share(2, DAY0 + DAY + 9 * HOUR)]
}

#[test]
fn period_count_follows_floor_formula() {
    let until = DAY0 + 3 * 5 * HOUR + 100;
    let periods = construct_periods(&enrollment(DAY0, 5), until).unwrap();
    assert_eq!(periods.len(), 4);
    for (k, p) in periods.iter().enumerate() {
        assert_eq!(p.end, DAY0 + k as i64 * 5 * HOUR);
        assert_eq!(p.end - p.start, 5 * HOUR);
        assert_eq!(p.deadline, p.end + 5 * HOUR / 2);
    }
    for k in 0..3 {
        assert_eq!(periods[k].end, periods[k + 1].start);
    }
}

#[test]
fn horizon_at_start_gives_one_period() {
    let periods = construct_periods(&enrollment(DAY0, 24), DAY0).unwrap();
    assert_eq!(periods, vec![Period { start: DAY0 - DAY, end: DAY0, deadline: DAY0 + 12 * HOUR }]);
}

#[test]
fn horizon_before_start_gives_no_periods() {
    assert_eq!(construct_periods(&enrollment(DAY0, 24), DAY0 - 1), Ok(vec![]));
}

#[test]
fn horizon_before_start_with_huge_interval_gives_no_periods() {
    assert_eq!(construct_periods(&enrollment(DAY0, i64::MAX), DAY0 - 1), Ok(vec![]));
    assert_eq!(get_streak(&enrollment(DAY0, i64::MAX), day_scenario_shares(), DAY0 - 1), Ok(0));
}

#[test]
fn non_positive_interval_is_rejected() {
    assert_eq!(construct_periods(&enrollment(DAY0, 0), DAY0 + DAY), Err(ScheduleError::InvalidSchedule));
    assert_eq!(construct_periods(&enrollment(DAY0, -3), DAY0 + DAY), Err(ScheduleError::InvalidSchedule));
    assert_eq!(construct_periods(&enrollment(DAY0, 0), DAY0 - DAY), Err(ScheduleError::InvalidSchedule));
}

#[test]
fn unrepresentable_schedule_is_out_of_range() {
    assert_eq!(construct_periods(&enrollment(DAY0, i64::MAX / HOUR + 1), DAY0), Err(ScheduleError::OutOfRange));
    assert_eq!(construct_periods(&enrollment(DAY0, 24), i64::MAX - HOUR), Err(ScheduleError::OutOfRange));
    assert_eq!(construct_periods(&enrollment(i64::MIN + HOUR, 24), DAY0), Err(ScheduleError::OutOfRange));
}

#[test]
fn day_scenario_reconciles_and_breaks_streak() {
    let periods = construct_periods(&enrollment(DAY0, 24), DAY0 + 2 * DAY).unwrap();
    assert_eq!(
        periods,
        vec![
            Period { start: DAY0 - DAY, end: DAY0, deadline: DAY0 + 12 * HOUR },
            Period { start: DAY0, end: DAY0 + DAY, deadline: DAY0 + DAY + 12 * HOUR },
            Period { start: DAY0 + DAY, end: DAY0 + 2 * DAY, deadline: DAY0 + 2 * DAY + 12 * HOUR },
        ]
    );
    let populated = calculate_populated_periods(periods, day_scenario_shares());
    let flags: Vec<bool> = populated.iter().map(|p| p.1).collect();
    assert_eq!(flags, vec![true, true, false]);
    assert_eq!(calculate_streak(&populated), 0);
    assert_eq!(get_streak(&enrollment(DAY0, 24), day_scenario_shares(), DAY0 + 2 * DAY), Ok(0));
}

#[test]
fn streak_before_the_unfulfilled_period() {
    let e = enrollment(DAY0, 24);
    assert_eq!(get_streak(&e, day_scenario_shares(), DAY0 + DAY), Ok(2));
    assert_eq!(get_streak(&e, day_scenario_shares(), DAY0 - 1), Ok(0));
    assert_eq!(get_streak(&enrollment(DAY0, 0), day_scenario_shares(), DAY0), Err(ScheduleError::InvalidSchedule));
}

#[test]
fn reminder_fires_once_for_the_missed_period() {
    let e = enrollment(DAY0, 24);
    let shares = day_scenario_shares();
    let tick = 30 * MINUTE;
    assert_eq!(reminder_due(&e, shares.clone(), DAY0 + 2 * DAY, DAY0 + 2 * DAY + tick), Ok(true));
    assert_eq!(reminder_due(&e, shares.clone(), DAY0 + 2 * DAY + tick, DAY0 + 2 * DAY + 2 * tick), Ok(false));
    let entries = vec![(e, shares)];
    assert_eq!(
        get_reminders(&entries, DAY0 + 2 * DAY, DAY0 + 2 * DAY + tick),
        Ok(vec![Reminder { user_id: 123, channel_id: 456 }])
    );
    assert_eq!(get_reminders(&entries, DAY0 + 2 * DAY + tick, DAY0 + 2 * DAY + 2 * tick), Ok(vec![]));
}

#[test]
fn tick_ending_at_a_period_end_leaves_it_to_the_next_tick() {
    let e = enrollment(DAY0, 24);
    let shares = day_scenario_shares();
    let tick = 30 * MINUTE;
    assert_eq!(reminder_due(&e, shares.clone(), DAY0 + 2 * DAY - tick, DAY0 + 2 * DAY), Ok(false));
    assert_eq!(schedule_reaches_window(&e, DAY0 + 2 * DAY - tick, DAY0 + 2 * DAY), Ok(false));
    assert_eq!(reminder_due(&e, shares.clone(), DAY0 + 2 * DAY, DAY0 + 2 * DAY + tick), Ok(true));
    assert_eq!(schedule_reaches_window(&e, DAY0 + 2 * DAY, DAY0 + 2 * DAY + tick), Ok(true));
    let entries = vec![(e, shares)];
    assert_eq!(get_reminders(&entries, DAY0 + 2 * DAY - tick, DAY0 + 2 * DAY), Ok(vec![]));
}

#[test]
fn schedule_reach_before_start_and_on_invalid_interval() {
    let e = enrollment(DAY0, 24);
    assert_eq!(schedule_reaches_window(&e, DAY0 - DAY, DAY0 - DAY + MINUTE), Ok(false));
    assert_eq!(schedule_reaches_window(&e, DAY0, DAY0 + MINUTE), Ok(true));
    assert_eq!(schedule_reaches_window(&e, DAY0 + MINUTE, DAY0 + 2 * MINUTE), Ok(false));
    assert_eq!(schedule_reaches_window(&enrollment(DAY0, 0), DAY0, DAY0 + MINUTE), Err(ScheduleError::InvalidSchedule));
}

#[test]
fn no_reminder_for_fulfilled_or_unstarted_schedule() {
    let e = enrollment(DAY0, 24);
    let shares = vec![share(1, DAY0 + HOUR), share(2, DAY0 + DAY + HOUR), share(3, DAY0 + 2 * DAY - HOUR)];
    assert_eq!(reminder_due(&e, shares.clone(), DAY0 + 2 * DAY, DAY0 + 2 * DAY + MINUTE), Ok(false));
    let late_only = vec![share(1, DAY0 + 2 * DAY - HOUR)];
    assert_eq!(reminder_due(&e, late_only, DAY0 + 2 * DAY, DAY0 + 2 * DAY + MINUTE), Ok(true));
    assert_eq!(reminder_due(&e, shares.clone(), DAY0 - DAY, DAY0 - DAY + MINUTE), Ok(false));
}

#[test]
fn reminders_skip_non_numeric_ids_and_stop_on_invalid_schedule() {
    let mut bad_ids = enrollment(DAY0, 24);
    bad_ids.user_id = "someone".to_string();
    let good = enrollment(DAY0, 24);
    let window = (DAY0 + 2 * DAY, DAY0 + 2 * DAY + MINUTE);
    let entries = vec![(bad_ids, vec![]), (good.clone(), vec![])];
    assert_eq!(get_reminders(&entries, window.0, window.1), Ok(vec![Reminder { user_id: 123, channel_id: 456 }]));
    let entries = vec![(good, vec![]), (enrollment(DAY0, -1), vec![])];
    assert_eq!(get_reminders(&entries, window.0, window.1), Err(ScheduleError::InvalidSchedule));
}

#[test]
fn reminder_target_parses_ids() {
    let mut e = enrollment(DAY0, 24);
    assert_eq!(reminder_target(&e), Some(Reminder { user_id: 123, channel_id: 456 }));
    e.user_id = "+77".to_string();
    e.channel_id = "18446744073709551615".to_string();
    assert_eq!(reminder_target(&e), Some(Reminder { user_id: 77, channel_id: u64::MAX }));
    e.channel_id = "18446744073709551616".to_string();
    assert_eq!(reminder_target(&e), None);
    e.channel_id = "-1".to_string();
    assert_eq!(reminder_target(&e), None);
    e.channel_id = "".to_string();
    assert_eq!(reminder_target(&e), None);
}

#[test]
fn streak_counts_trailing_run_only() {
    let p = Period { start: 0, end: 1, deadline: 2 };
    let pattern = [true, true, false, true, true, true];
    let populated: Vec<(Period, bool)> = pattern.iter().map(|f| (p, *f)).collect();
    assert_eq!(calculate_streak(&populated), 3);
}

#[test]
fn streak_of_all_fulfilled_and_of_empty() {
    let p = Period { start: 0, end: 1, deadline: 2 };
    let populated: Vec<(Period, bool)> = vec![(p, true); 5];
    assert_eq!(calculate_streak(&populated), 5);
    assert_eq!(calculate_streak(&vec![]), 0);
}

#[test]
fn share_in_window_fulfills_period() {
    let periods = construct_periods(&enrollment(DAY0, 24), DAY0 + DAY).unwrap();
    let shares = vec![share(1, DAY0 + DAY + 11 * HOUR)];
    let flags: Vec<bool> = calculate_populated_periods(periods.clone(), shares.clone()).iter().map(|p| p.1).collect();
    assert_eq!(flags, vec![false, false]);
    let shares = vec![share(1, DAY0 + 12 * HOUR)];
    let flags: Vec<bool> = calculate_populated_periods(periods.clone(), shares.clone()).iter().map(|p| p.1).collect();
    assert_eq!(flags, vec![true, false]);
}

#[test]
fn late_share_for_earlier_period_is_discarded() {
    // The share at 13:00 misses the first period's deadline at 12:00, so the first
    // period consumes it, and the second period, whose window it lies in, gets nothing.
    let periods = construct_periods(&enrollment(DAY0, 24), DAY0 + DAY).unwrap();
    let shares = vec![share(1, DAY0 + 13 * HOUR)];
    let flags: Vec<bool> = calculate_populated_periods(periods.clone(), shares.clone()).iter().map(|p| p.1).collect();
    assert_eq!(flags, vec![false, false]);
}

#[test]
fn each_share_fulfills_at_most_one_period() {
    let periods = construct_periods(&enrollment(DAY0, 24), DAY0 + 2 * DAY).unwrap();
    let shares = vec![share(1, DAY0 + 10 * HOUR), share(2, DAY0 + 11 * HOUR)];
    let flags: Vec<bool> = calculate_populated_periods(periods.clone(), shares.clone()).iter().map(|p| p.1).collect();
    assert_eq!(flags, vec![true, true, false]);
    let one = vec![share(1, DAY0 + 10 * HOUR)];
    let flags: Vec<bool> = calculate_populated_periods(periods.clone(), one).iter().map(|p| p.1).collect();
    assert_eq!(flags, vec![true, false, false]);
}

#[test]
fn reconciliation_without_periods_or_shares() {
    assert_eq!(calculate_populated_periods(vec![], day_scenario_shares()), vec![]);
    let periods = construct_periods(&enrollment(DAY0, 24), DAY0 + DAY).unwrap();
    let flags: Vec<bool> = calculate_populated_periods(periods, vec![]).iter().map(|p| p.1).collect();
    assert_eq!(flags, vec![false, false]);
}

#[test]
fn reconciliation_is_idempotent() {
    let periods = construct_periods(&enrollment(DAY0, 24), DAY0 + 2 * DAY).unwrap();
    let shares = day_scenario_shares();
    let first = calculate_populated_periods(periods.clone(), shares.clone());
    let second = calculate_populated_periods(periods.clone(), shares.clone());
    assert_eq!(first, second);
}

#[test]
fn streak_tiers() {
    assert_eq!(streak_tier(0), StreakTier::NoStreak);
    assert_eq!(streak_tier(1), StreakTier::Modest);
    assert_eq!(streak_tier(3), StreakTier::Modest);
    assert_eq!(streak_tier(4), StreakTier::Strong);
}
