use task_engine::context::Context;
use task_engine::models::habit::{compute_next_deadline, weekday_of, Habit};
use task_engine::models::time_slot::{DayOfWeek, Frequency, RecurrencePattern};
use task_engine::models::traits::{Storable, StorageError};

const DAY: u64 = 86_400_000_000_000;

fn context(now: u64) -> Context {
    Context::new("alice".to_string(), now, u128::MAX, 1)
}

fn daily(interval: Option<u32>) -> RecurrencePattern {
    RecurrencePattern { frequency: Frequency::Daily, interval, specific_days: None }
}

fn habit(pattern: RecurrencePattern, ctx: &Context) -> Habit {
    Habit::new("task-alice-1".to_string(), pattern, "alice".to_string(), ctx).unwrap()
}

#[test]
fn a_new_habit_has_no_streak() {
    let ctx = context(12);
    let habit = habit(RecurrencePattern::new_daily(), &ctx);
    assert_eq!(habit.id, "habit-alice-12");
    assert_eq!(habit.task_id, "task-alice-1");
    assert_eq!(habit.streak, 0);
    assert_eq!(habit.last_completed, 0);
    assert_eq!(habit.owner_id, "alice");
    assert_eq!(habit.recurrence, RecurrencePattern::new_daily());
}

#[test]
fn a_habit_is_held_to_the_quota() {
    // "habit-alice-12" has 14 bytes, the task 12, the owner 5: 159 bytes in all.
    let exact = Context::new("alice".to_string(), 12, 159, 1);
    let made = Habit::new(
        "task-alice-1".to_string(),
        RecurrencePattern::new_daily(),
        "alice".to_string(),
        &exact,
    );
    assert!(made.is_ok());
    assert_eq!(made.unwrap().calculate_storage_metrics(&exact).total_bytes, 159);
    let short = Context::new("alice".to_string(), 12, 158, 1);
    assert_eq!(
        Habit::new(
            "task-alice-1".to_string(),
            RecurrencePattern::new_daily(),
            "alice".to_string(),
            &short
        ),
        Err(StorageError::InsufficientBalance { required: 159, available: 158 })
    );
    let long_task = "t".repeat(2_000);
    assert_eq!(
        Habit::new(long_task, RecurrencePattern::new_daily(), "alice".to_string(), &exact),
        Err(StorageError::ExceedsMaxSize { size: 2_147, max_allowed: 2_048 })
    );
}

#[test]
fn the_streak_grows_by_one_and_remembers_the_time() {
    let mut habit = habit(RecurrencePattern::new_daily(), &context(12));
    assert_eq!(habit.increment_streak(&context(500)), 1);
    assert_eq!(habit.streak, 1);
    assert_eq!(habit.last_completed, 500);
    assert_eq!(habit.increment_streak(&context(900)), 2);
    assert_eq!(habit.last_completed, 900);
}

#[test]
fn the_streak_begins_anew_and_remembers_the_time() {
    let mut habit = habit(RecurrencePattern::new_daily(), &context(12));
    habit.streak = 9;
    habit.reset_streak(&context(700));
    assert_eq!(habit.streak, 0);
    assert_eq!(habit.last_completed, 700);
}

#[test]
fn a_first_completion_always_continues_the_streak() {
    let never = habit(RecurrencePattern { frequency: Frequency::Custom, interval: None, specific_days: None }, &context(12));
    assert!(never.verify_streak_continuity(&context(99 * DAY)));
}

#[test]
fn a_daily_habit_continues_within_its_interval() {
    let mut habit = habit(RecurrencePattern::new_daily(), &context(12));
    habit.last_completed = 1_000;
    assert!(habit.verify_streak_continuity(&context(1_000 + DAY)));
    assert!(!habit.verify_streak_continuity(&context(1_001 + DAY)));
    assert!(habit.verify_streak_continuity(&context(1_000)));
    assert!(habit.verify_streak_continuity(&context(500)));
}

#[test]
fn a_daily_habit_without_interval_recurs_every_day() {
    let mut habit = habit(daily(None), &context(12));
    habit.last_completed = 1_000;
    assert!(habit.verify_streak_continuity(&context(1_000 + DAY)));
    assert!(!habit.verify_streak_continuity(&context(1_001 + DAY)));
}

#[test]
fn a_longer_interval_allows_a_longer_pause() {
    let mut habit = habit(daily(Some(3)), &context(12));
    habit.last_completed = 1_000;
    assert!(habit.verify_streak_continuity(&context(1_000 + 3 * DAY)));
    assert!(!habit.verify_streak_continuity(&context(1_001 + 3 * DAY)));
    let mut endless = habit;
    endless.recurrence = daily(Some(u32::MAX));
    assert!(endless.verify_streak_continuity(&context(u64::MAX)));
}

#[test]
fn the_epoch_fell_on_a_thursday() {
    assert_eq!(weekday_of(0), 3);
    assert_eq!(weekday_of(DAY - 1), 3);
    assert_eq!(weekday_of(DAY), 4);
    assert_eq!(weekday_of(4 * DAY), 0);
    assert_eq!(weekday_of(7 * DAY), 3);
}

#[test]
fn a_custom_habit_continues_on_its_days_within_a_week() {
    // Day 4 after the epoch is a Monday, day 11 the Monday after.
    let mut habit = habit(RecurrencePattern::new_custom(vec![DayOfWeek::Monday]), &context(12));
    habit.last_completed = 4 * DAY + 5;
    assert!(habit.verify_streak_continuity(&context(11 * DAY)));
    assert!(habit.verify_streak_continuity(&context(4 * DAY + 99)));
    // A Tuesday is not one of its days.
    assert!(!habit.verify_streak_continuity(&context(5 * DAY)));
    // The Monday two weeks later is too late.
    assert!(!habit.verify_streak_continuity(&context(18 * DAY)));
}

#[test]
fn a_custom_habit_without_days_never_continues() {
    let mut habit = habit(
        RecurrencePattern { frequency: Frequency::Custom, interval: None, specific_days: None },
        &context(12),
    );
    habit.last_completed = 4 * DAY;
    assert!(!habit.verify_streak_continuity(&context(4 * DAY + 1)));
}

#[test]
fn a_daily_habit_is_next_due_after_its_interval() {
    assert_eq!(compute_next_deadline(&RecurrencePattern::new_daily(), 1_000), Some(1_000 + DAY));
    assert_eq!(compute_next_deadline(&daily(Some(5)), 1_000), Some(1_000 + 5 * DAY));
    assert_eq!(compute_next_deadline(&daily(None), 1_000), Some(1_000 + DAY));
    assert_eq!(compute_next_deadline(&daily(Some(0)), 1_000), Some(1_000));
}

#[test]
fn a_deadline_beyond_the_largest_time_is_none() {
    assert_eq!(compute_next_deadline(&daily(Some(u32::MAX)), 1_000), None);
    assert_eq!(compute_next_deadline(&RecurrencePattern::new_daily(), u64::MAX - DAY + 1), None);
    assert_eq!(
        compute_next_deadline(&RecurrencePattern::new_daily(), u64::MAX - DAY),
        Some(u64::MAX)
    );
}

#[test]
fn a_custom_habit_is_next_due_on_its_nearest_day() {
    // Time 0 is a Thursday.
    let friday = RecurrencePattern::new_custom(vec![DayOfWeek::Friday]);
    assert_eq!(compute_next_deadline(&friday, 0), Some(DAY));
    let monday_and_wednesday =
        RecurrencePattern::new_custom(vec![DayOfWeek::Wednesday, DayOfWeek::Monday]);
    assert_eq!(compute_next_deadline(&monday_and_wednesday, 0), Some(4 * DAY));
    let thursday = RecurrencePattern::new_custom(vec![DayOfWeek::Thursday]);
    assert_eq!(compute_next_deadline(&thursday, 0), Some(7 * DAY));
    assert_eq!(compute_next_deadline(&thursday, 6 * DAY + 10), Some(7 * DAY + 10));
}

#[test]
fn a_custom_habit_without_days_is_next_due_in_a_week() {
    let no_days =
        RecurrencePattern { frequency: Frequency::Custom, interval: None, specific_days: None };
    assert_eq!(compute_next_deadline(&no_days, 50), Some(50 + 7 * DAY));
    let empty = RecurrencePattern {
        frequency: Frequency::Custom,
        interval: None,
        specific_days: Some(Vec::new()),
    };
    assert_eq!(compute_next_deadline(&empty, 50), Some(50 + 7 * DAY));
}
