use task_engine::context::Context;
use task_engine::models::time_slot::{
    has_day, weekday, DayOfWeek, Frequency, RecurrencePattern, SlotType, TimeSlot, TimeSlotError,
    TimeSlotRecurrenceError, TimeSlotTimingError, TimeSlotValidation, TimeSlotValidationError,
};
use task_engine::models::traits::{Storable, StorageError};

fn context(now: u64) -> Context {
    Context::new("alice".to_string(), now, u128::MAX, 1)
}

fn make(start: u32, end: u32, ctx: &Context) -> Result<TimeSlot, TimeSlotError> {
    TimeSlot::new(start, end, RecurrencePattern::new_daily(), "alice".to_string(), ctx)
}

fn slot(start: u32, end: u32, slot_type: SlotType) -> TimeSlot {
    let mut slot = make(start, end, &context(1)).unwrap();
    slot.slot_type = slot_type;
    slot
}

fn invalid_time(start_minutes: u32, end_minutes: u32) -> TimeSlotError {
    TimeSlotError::Validation(TimeSlotValidationError::Timing {
        reason: TimeSlotTimingError::InvalidTimeOfDay,
        start_minutes,
        end_minutes,
    })
}

#[test]
fn a_daily_pattern_recurs_every_day() {
    let pattern = RecurrencePattern::new_daily();
    assert_eq!(pattern.frequency, Frequency::Daily);
    assert_eq!(pattern.interval, Some(1));
    assert_eq!(pattern.specific_days, None);
    assert!(pattern.is_valid());
}

#[test]
fn a_custom_pattern_lists_its_days_once_in_the_order_of_the_week() {
    let pattern = RecurrencePattern::new_custom(vec![
        DayOfWeek::Friday,
        DayOfWeek::Monday,
        DayOfWeek::Friday,
        DayOfWeek::Sunday,
        DayOfWeek::Monday,
    ]);
    assert_eq!(pattern.frequency, Frequency::Custom);
    assert_eq!(pattern.interval, None);
    assert_eq!(
        pattern.specific_days,
        Some(vec![DayOfWeek::Monday, DayOfWeek::Friday, DayOfWeek::Sunday])
    );
    assert!(pattern.is_valid());
}

#[test]
fn a_pattern_is_valid_only_in_the_two_forms_of_the_constructors() {
    let daily_without_interval =
        RecurrencePattern { frequency: Frequency::Daily, interval: None, specific_days: None };
    assert!(!daily_without_interval.is_valid());
    let daily_zero =
        RecurrencePattern { frequency: Frequency::Daily, interval: Some(0), specific_days: None };
    assert!(!daily_zero.is_valid());
    let daily_with_days = RecurrencePattern {
        frequency: Frequency::Daily,
        interval: Some(1),
        specific_days: Some(vec![DayOfWeek::Monday]),
    };
    assert!(!daily_with_days.is_valid());
    let custom_empty = RecurrencePattern {
        frequency: Frequency::Custom,
        interval: None,
        specific_days: Some(Vec::new()),
    };
    assert!(!custom_empty.is_valid());
    let custom_none =
        RecurrencePattern { frequency: Frequency::Custom, interval: None, specific_days: None };
    assert!(!custom_none.is_valid());
    let custom_with_interval = RecurrencePattern {
        frequency: Frequency::Custom,
        interval: Some(2),
        specific_days: Some(vec![DayOfWeek::Monday]),
    };
    assert!(!custom_with_interval.is_valid());
    let every_third_day =
        RecurrencePattern { frequency: Frequency::Daily, interval: Some(3), specific_days: None };
    assert!(every_third_day.is_valid());
}

#[test]
fn days_of_the_week_are_numbered_from_monday() {
    assert_eq!(weekday(0), DayOfWeek::Monday);
    assert_eq!(weekday(3), DayOfWeek::Thursday);
    assert_eq!(weekday(6), DayOfWeek::Sunday);
    assert!(has_day(&vec![DayOfWeek::Monday, DayOfWeek::Sunday], DayOfWeek::Sunday));
    assert!(!has_day(&vec![DayOfWeek::Monday, DayOfWeek::Sunday], DayOfWeek::Tuesday));
    assert!(!has_day(&Vec::new(), DayOfWeek::Tuesday));
}

#[test]
fn a_new_slot_is_one_of_working_hours_with_its_duration() {
    let ctx = context(77);
    let slot = make(540, 1020, &ctx).unwrap();
    assert_eq!(slot.id, "time_slot-alice-77");
    assert_eq!(slot.start_minutes, 540);
    assert_eq!(slot.end_minutes, 1020);
    assert_eq!(slot.duration, Some(480));
    assert_eq!(slot.slot_type, SlotType::WorkingHours);
    assert_eq!(slot.owner_id, "alice");
    assert_eq!(slot.recurrence, RecurrencePattern::new_daily());
}

#[test]
fn a_slot_over_midnight_has_its_duration_round_the_clock() {
    let ctx = context(77);
    assert_eq!(make(1380, 60, &ctx).unwrap().duration, Some(120));
    assert_eq!(make(1439, 0, &ctx).unwrap().duration, Some(1));
    assert_eq!(make(0, 1439, &ctx).unwrap().duration, Some(1439));
}

#[test]
fn minutes_must_lie_in_the_day_and_differ() {
    let ctx = context(77);
    assert_eq!(make(1440, 10, &ctx), Err(invalid_time(1440, 10)));
    assert_eq!(make(10, 1440, &ctx), Err(invalid_time(10, 1440)));
    assert_eq!(make(300, 300, &ctx), Err(invalid_time(300, 300)));
    assert_eq!(make(u32::MAX, 0, &ctx), Err(invalid_time(u32::MAX, 0)));
    assert!(make(0, 1, &ctx).is_ok());
}

#[test]
fn a_custom_pattern_needs_days() {
    let ctx = context(77);
    let no_days =
        RecurrencePattern { frequency: Frequency::Custom, interval: None, specific_days: None };
    assert_eq!(
        TimeSlot::new(1, 2, no_days, "alice".to_string(), &ctx),
        Err(TimeSlotError::Validation(TimeSlotValidationError::Recurrence(
            TimeSlotRecurrenceError::EmptyDays
        )))
    );
    let empty_days = RecurrencePattern {
        frequency: Frequency::Custom,
        interval: None,
        specific_days: Some(Vec::new()),
    };
    assert_eq!(
        TimeSlot::new(1, 2, empty_days, "alice".to_string(), &ctx),
        Err(TimeSlotError::Validation(TimeSlotValidationError::Recurrence(
            TimeSlotRecurrenceError::EmptyDays
        )))
    );
    let days = RecurrencePattern::new_custom(vec![DayOfWeek::Tuesday]);
    assert!(TimeSlot::new(1, 2, days, "alice".to_string(), &ctx).is_ok());
}

#[test]
fn a_daily_pattern_needs_an_interval_and_no_days() {
    let ctx = context(77);
    let no_interval =
        RecurrencePattern { frequency: Frequency::Daily, interval: None, specific_days: None };
    assert_eq!(
        TimeSlot::new(1, 2, no_interval, "alice".to_string(), &ctx),
        Err(TimeSlotError::Validation(TimeSlotValidationError::Recurrence(
            TimeSlotRecurrenceError::InvalidPattern
        )))
    );
    let with_days = RecurrencePattern {
        frequency: Frequency::Daily,
        interval: Some(1),
        specific_days: Some(vec![DayOfWeek::Monday]),
    };
    assert_eq!(
        TimeSlot::new(1, 2, with_days, "alice".to_string(), &ctx),
        Err(TimeSlotError::Validation(TimeSlotValidationError::Recurrence(
            TimeSlotRecurrenceError::InvalidPattern
        )))
    );
}

#[test]
fn the_minutes_are_checked_before_the_pattern() {
    let ctx = context(77);
    let no_days =
        RecurrencePattern { frequency: Frequency::Custom, interval: None, specific_days: None };
    assert_eq!(
        TimeSlot::new(5, 5, no_days, "alice".to_string(), &ctx),
        Err(invalid_time(5, 5))
    );
}

#[test]
fn a_slot_is_held_to_the_quota() {
    // "time_slot-alice-77" has 18 bytes, the owner 5, and three days take 3: 154 bytes.
    let exact = Context::new("alice".to_string(), 77, 154, 1);
    let days = vec![DayOfWeek::Monday, DayOfWeek::Tuesday, DayOfWeek::Sunday];
    let slot = TimeSlot::new(
        1,
        2,
        RecurrencePattern::new_custom(days.clone()),
        "alice".to_string(),
        &exact,
    )
    .unwrap();
    assert_eq!(slot.calculate_storage_metrics(&exact).total_bytes, 154);
    let short = Context::new("alice".to_string(), 77, 153, 1);
    assert_eq!(
        TimeSlot::new(1, 2, RecurrencePattern::new_custom(days), "alice".to_string(), &short),
        Err(TimeSlotError::Storage(StorageError::InsufficientBalance {
            required: 154,
            available: 153,
        }))
    );
}

#[test]
fn validating_a_slot_leaves_it_as_it_is() {
    let ctx = context(77);
    let mut slot = make(540, 1020, &ctx).unwrap();
    let before = slot.clone();
    assert_eq!(slot.validate(&ctx), Ok(()));
    assert_eq!(slot, before);
    assert_eq!(slot.validate_recurrence(), Ok(()));
}

#[test]
fn slots_within_the_day_overlap_where_each_starts_before_the_other_ends() {
    let a = slot(540, 720, SlotType::WorkingHours);
    assert!(a.overlaps_with(&slot(600, 800, SlotType::WorkingHours)));
    assert!(a.overlaps_with(&slot(500, 541, SlotType::WorkingHours)));
    assert!(a.overlaps_with(&slot(550, 560, SlotType::WorkingHours)));
    assert!(!a.overlaps_with(&slot(720, 800, SlotType::WorkingHours)));
    assert!(!a.overlaps_with(&slot(400, 540, SlotType::WorkingHours)));
}

#[test]
fn slots_of_different_types_never_overlap() {
    let work = slot(540, 720, SlotType::WorkingHours);
    let pause = slot(600, 630, SlotType::Break);
    assert!(!work.overlaps_with(&pause));
    assert!(!pause.overlaps_with(&work));
    assert!(pause.overlaps_with(&slot(610, 620, SlotType::Break)));
}

#[test]
fn a_slot_over_midnight_overlaps_what_it_reaches_on_either_side() {
    let night = slot(1380, 60, SlotType::WorkingHours);
    assert!(night.overlaps_with(&slot(1400, 1430, SlotType::WorkingHours)));
    assert!(night.overlaps_with(&slot(30, 90, SlotType::WorkingHours)));
    assert!(night.overlaps_with(&slot(1300, 1381, SlotType::WorkingHours)));
    assert!(!night.overlaps_with(&slot(60, 1380, SlotType::WorkingHours)));
    assert!(!night.overlaps_with(&slot(100, 200, SlotType::WorkingHours)));
    // The other way round.
    assert!(slot(1400, 1430, SlotType::WorkingHours).overlaps_with(&night));
    assert!(slot(30, 90, SlotType::WorkingHours).overlaps_with(&night));
    assert!(!slot(60, 1380, SlotType::WorkingHours).overlaps_with(&night));
}

#[test]
fn two_slots_over_midnight_always_overlap() {
    let a = slot(1380, 60, SlotType::Break);
    let b = slot(1439, 1, SlotType::Break);
    assert!(a.overlaps_with(&b));
    assert!(b.overlaps_with(&a));
}

#[test]
fn overlap_is_the_same_from_both_sides() {
    let slots = [
        slot(0, 60, SlotType::Break),
        slot(30, 90, SlotType::Break),
        slot(1380, 60, SlotType::Break),
        slot(1439, 0, SlotType::Break),
        slot(700, 701, SlotType::WorkingHours),
        slot(60, 1380, SlotType::Break),
    ];
    for a in slots.iter() {
        for b in slots.iter() {
            assert_eq!(a.overlaps_with(b), b.overlaps_with(a));
        }
    }
}
