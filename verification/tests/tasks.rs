use task_engine::context::Context;
use task_engine::models::task::{
    DeadlineError, DescriptionError, EstimatedTimeError, Priority, SubtaskError, Task, TaskAction,
    TaskError, TaskState, TaskStateError, TaskTimeSlot, TaskValidation, TaskValidationError,
    TimingError, TitleError,
};
use task_engine::models::traits::StorageError;

const DAY: u64 = 86_400_000_000_000;
const YEAR: u64 = 365 * DAY;

fn context(now: u64) -> Context {
    Context::new("alice".to_string(), now, u128::MAX, 1)
}

fn make(title: &str, description: &str, deadline: u64, minutes: u32, slots: Vec<TaskTimeSlot>, ctx: &Context) -> Result<Task, TaskError> {
    Task::new(
        title.to_string(),
        description.to_string(),
        Priority::Low,
        deadline,
        minutes,
        slots,
        "alice".to_string(),
        ctx,
    )
}

fn slot(start_time: u64, end_time: u64) -> TaskTimeSlot {
    TaskTimeSlot { start_time, end_time }
}

#[test]
fn reward_points_follow_half_hours_and_priority() {
    assert_eq!(Task::calculate_reward_points(30, Priority::Low), 1);
    assert_eq!(Task::calculate_reward_points(45, Priority::Medium), 4);
    assert_eq!(Task::calculate_reward_points(14, Priority::Low), 0);
    assert_eq!(Task::calculate_reward_points(15, Priority::Low), 1);
    assert_eq!(Task::calculate_reward_points(44, Priority::Low), 1);
    assert_eq!(Task::calculate_reward_points(60, Priority::High), 6);
    assert_eq!(Task::calculate_reward_points(60, Priority::Critical), 8);
    assert_eq!(Task::calculate_reward_points(0, Priority::Critical), 0);
    assert_eq!(Task::calculate_reward_points(u32::MAX, Priority::Critical), 572_662_308);
}

#[test]
fn a_remainder_of_twenty_nine_minutes_counts_as_a_half_hour() {
    assert_eq!(Task::calculate_reward_points(29, Priority::Low), 1);
    assert_eq!(Task::calculate_reward_points(59, Priority::Low), 2);
}

#[test]
fn a_new_task_is_created_with_its_identifier_and_reward() {
    let ctx = context(100);
    let task = make("  Write report \n", " draft ", 100 + DAY, 45, Vec::new(), &ctx).unwrap();
    assert_eq!(task.id, "task-alice-100");
    assert_eq!(task.title, "Write report");
    assert_eq!(task.description, "draft");
    assert_eq!(task.priority, Priority::Low);
    assert_eq!(task.deadline, 100 + DAY);
    assert_eq!(task.estimated_time, 45);
    assert_eq!(task.reward_points, 2);
    assert_eq!(task.state, TaskState::Created);
    assert_eq!(task.owner_id, "alice");
    assert_eq!(task.parent_task_id, None);
    assert!(task.subtask_ids.is_empty());
    assert!(task.time_slots.is_empty());
}

#[test]
fn a_new_task_has_its_deadline_ahead_and_after_its_slots() {
    let ctx = context(1_000);
    let slots = vec![slot(2_000, 3_000), slot(3_000, 4_000)];
    let task = make("t", "", 5_000, 30, slots, &ctx).unwrap();
    assert!(task.deadline > ctx.now);
    assert!(task.deadline < ctx.now + YEAR);
    assert!(task.time_slots.iter().all(|s| task.deadline > s.end_time));
}

#[test]
fn the_title_must_not_be_empty() {
    let ctx = context(100);
    assert_eq!(
        make("", "", 100 + DAY, 30, Vec::new(), &ctx),
        Err(TaskError::Validation(TaskValidationError::Title {
            reason: TitleError::Empty,
            current_length: 0,
        }))
    );
}

#[test]
fn the_title_may_have_up_to_256_characters() {
    let ctx = context(100);
    let longest = "x".repeat(256);
    assert!(make(&longest, "", 100 + DAY, 30, Vec::new(), &ctx).is_ok());
    let too_long = "x".repeat(257);
    assert_eq!(
        make(&too_long, "", 100 + DAY, 30, Vec::new(), &ctx),
        Err(TaskError::Validation(TaskValidationError::Title {
            reason: TitleError::TooLong,
            current_length: 257,
        }))
    );
}

#[test]
fn the_title_must_not_hold_control_characters() {
    let ctx = context(100);
    assert_eq!(
        make("a\u{7}b", "", 100 + DAY, 30, Vec::new(), &ctx),
        Err(TaskError::Validation(TaskValidationError::Title {
            reason: TitleError::InvalidCharacters,
            current_length: 3,
        }))
    );
    assert!(make("a\tb", "", 100 + DAY, 30, Vec::new(), &ctx).is_ok());
}

#[test]
fn the_description_may_have_up_to_1024_characters() {
    let ctx = context(100);
    let longest = "d".repeat(1024);
    assert!(make("t", &longest, 100 + DAY, 30, Vec::new(), &ctx).is_ok());
    let too_long = "d".repeat(1025);
    assert_eq!(
        make("t", &too_long, 100 + DAY, 30, Vec::new(), &ctx),
        Err(TaskError::Validation(TaskValidationError::Description {
            reason: DescriptionError::TooLong,
            current_length: 1025,
        }))
    );
}

#[test]
fn the_description_must_not_hold_control_characters() {
    let ctx = context(100);
    assert_eq!(
        make("t", "x\u{1f}", 100 + DAY, 30, Vec::new(), &ctx),
        Err(TaskError::Validation(TaskValidationError::Description {
            reason: DescriptionError::InvalidCharacters,
            current_length: 2,
        }))
    );
}

#[test]
fn the_deadline_must_lie_ahead() {
    let ctx = context(100);
    assert_eq!(
        make("t", "", 100, 30, Vec::new(), &ctx),
        Err(TaskError::Validation(TaskValidationError::Deadline {
            reason: DeadlineError::PastDeadline,
            provided_time: 100,
        }))
    );
    assert!(make("t", "", 101, 30, Vec::new(), &ctx).is_ok());
}

#[test]
fn the_deadline_must_lie_within_a_year() {
    let ctx = context(100);
    assert_eq!(
        make("t", "", 100 + YEAR, 30, Vec::new(), &ctx),
        Err(TaskError::Validation(TaskValidationError::Deadline {
            reason: DeadlineError::TooFarInFuture,
            provided_time: 100 + YEAR,
        }))
    );
    assert!(make("t", "", 100 + YEAR - 1, 30, Vec::new(), &ctx).is_ok());
}

#[test]
fn the_deadline_is_checked_without_overflow_at_the_end_of_time() {
    let ctx = context(u64::MAX - 5);
    assert!(make("t", "", u64::MAX, 30, Vec::new(), &ctx).is_ok());
}

#[test]
fn the_deadline_must_lie_after_every_slot() {
    let ctx = context(100);
    assert_eq!(
        make("t", "", 3_000, 30, vec![slot(1_000, 2_000), slot(2_000, 3_000)], &ctx),
        Err(TaskError::Validation(TaskValidationError::Deadline {
            reason: DeadlineError::BeforeEndTime,
            provided_time: 3_000,
        }))
    );
    assert!(make("t", "", 3_001, 30, vec![slot(1_000, 2_000), slot(2_000, 3_000)], &ctx).is_ok());
}

#[test]
fn the_estimated_time_must_be_between_one_minute_and_a_day() {
    let ctx = context(100);
    assert_eq!(
        make("t", "", 100 + DAY, 0, Vec::new(), &ctx),
        Err(TaskError::Validation(TaskValidationError::EstimatedTime {
            reason: EstimatedTimeError::Zero,
            provided_estimated_time: 0,
        }))
    );
    assert_eq!(
        make("t", "", 100 + DAY, 1440, Vec::new(), &ctx),
        Err(TaskError::Validation(TaskValidationError::EstimatedTime {
            reason: EstimatedTimeError::TooLong,
            provided_estimated_time: 1440,
        }))
    );
    assert!(make("t", "", 100 + DAY, 1439, Vec::new(), &ctx).is_ok());
    assert!(make("t", "", 100 + DAY, 1, Vec::new(), &ctx).is_ok());
}

#[test]
fn a_slot_must_end_after_it_starts() {
    let ctx = context(100);
    assert_eq!(
        make("t", "", 9_000, 30, vec![slot(1_000, 2_000), slot(5_000, 5_000)], &ctx),
        Err(TaskError::Validation(TaskValidationError::Timing {
            reason: TimingError::EndBeforeStart,
            provided_time: 5_000,
        }))
    );
}

#[test]
fn slots_must_not_share_time() {
    let ctx = context(100);
    assert_eq!(
        make("t", "", 9_000, 30, vec![slot(1_000, 2_000), slot(3_000, 4_000), slot(1_500, 2_500)], &ctx),
        Err(TaskError::Validation(TaskValidationError::Timing {
            reason: TimingError::OverlappingSlots,
            provided_time: 1_500,
        }))
    );
    assert!(make("t", "", 9_000, 30, vec![slot(1_000, 2_000), slot(2_000, 3_000)], &ctx).is_ok());
}

#[test]
fn the_first_broken_rule_is_reported() {
    let ctx = context(100);
    // Title and deadline are both wrong: the title comes first.
    assert_eq!(
        make("", "", 1, 0, Vec::new(), &ctx),
        Err(TaskError::Validation(TaskValidationError::Title {
            reason: TitleError::Empty,
            current_length: 0,
        }))
    );
    // Deadline and estimated time are both wrong: the deadline comes first.
    assert_eq!(
        make("t", "", 1, 0, Vec::new(), &ctx),
        Err(TaskError::Validation(TaskValidationError::Deadline {
            reason: DeadlineError::PastDeadline,
            provided_time: 1,
        }))
    );
    // An inverted slot is reported before a clash.
    assert_eq!(
        make("t", "", 9_000, 30, vec![slot(1_000, 2_000), slot(1_500, 2_500), slot(7, 7)], &ctx),
        Err(TaskError::Validation(TaskValidationError::Timing {
            reason: TimingError::EndBeforeStart,
            provided_time: 7,
        }))
    );
}

#[test]
fn the_quota_comes_last_and_counts_the_trimmed_texts() {
    // "task-alice-100" has 14 bytes, the owner 5, the title 1: 276 bytes in all.
    let exact = Context::new("alice".to_string(), 100, 276, 1);
    assert!(make("  t  ", "", 100 + DAY, 30, Vec::new(), &exact).is_ok());
    let short = Context::new("alice".to_string(), 100, 275, 1);
    assert_eq!(
        make("  t  ", "", 100 + DAY, 30, Vec::new(), &short),
        Err(TaskError::Storage(StorageError::InsufficientBalance { required: 276, available: 275 }))
    );
}

#[test]
fn a_task_over_its_budget_is_rejected() {
    let ctx = context(100);
    let mut task = make("t", "", 100 + DAY, 30, Vec::new(), &ctx).unwrap();
    for i in 0..400u32 {
        task.add_subtask(format!("task-alice-{}", 1_000_000 + i)).unwrap();
    }
    // 256 + 14 + 1 + 5 + 400 * 18 bytes.
    assert_eq!(
        task.validate(&ctx),
        Err(TaskError::Storage(StorageError::ExceedsMaxSize { size: 7476, max_allowed: 4096 }))
    );
}

#[test]
fn validation_trims_title_and_description() {
    let ctx = context(100);
    let mut task = make("t", "", 100 + DAY, 30, Vec::new(), &ctx).unwrap();
    task.title = "  spaced out  ".to_string();
    task.description = "\tindented\n".to_string();
    assert_eq!(task.validate(&ctx), Ok(()));
    assert_eq!(task.title, "spaced out");
    assert_eq!(task.description, "indented");
}

#[test]
fn validation_trims_the_title_even_where_a_later_rule_fails() {
    let ctx = context(100);
    let mut task = make("t", "", 100 + DAY, 30, Vec::new(), &ctx).unwrap();
    task.title = "  kept  ".to_string();
    task.description = " bad\u{0} ".to_string();
    assert!(task.validate(&ctx).is_err());
    assert_eq!(task.title, "kept");
    assert_eq!(task.description, " bad\u{0} ");
}

#[test]
fn validation_of_a_valid_task_changes_nothing() {
    let ctx = context(100);
    let mut task = make("  Plan  ", " the week ", 100 + DAY, 30, vec![slot(200, 300)], &ctx).unwrap();
    let before = task.clone();
    assert_eq!(task.validate(&ctx), Ok(()));
    assert_eq!(task, before);
    assert_eq!(task.validate(&ctx), Ok(()));
    assert_eq!(task, before);
}

#[test]
fn a_title_of_nothing_but_whitespace_is_empty() {
    let ctx = context(100);
    let empty = Err(TaskError::Validation(TaskValidationError::Title {
        reason: TitleError::Empty,
        current_length: 0,
    }));
    assert_eq!(make(" ", "", 100 + DAY, 30, Vec::new(), &ctx), empty);
    assert_eq!(make(" \t\n ", "", 100 + DAY, 30, Vec::new(), &ctx), empty);
    assert_eq!(make(&" ".repeat(300), "", 100 + DAY, 30, Vec::new(), &ctx), empty);
    assert_eq!(make("\u{b}", "", 100 + DAY, 30, Vec::new(), &ctx), empty);
    let mut task = make("t", "", 100 + DAY, 30, Vec::new(), &ctx).unwrap();
    task.title = "   ".to_string();
    assert_eq!(
        task.validate(&ctx),
        Err(TaskError::Validation(TaskValidationError::Title {
            reason: TitleError::Empty,
            current_length: 0,
        }))
    );
    assert_eq!(task.title, "   ");
}

#[test]
fn a_stored_title_has_between_one_and_256_characters_and_is_trimmed() {
    let ctx = context(100);
    let padded = format!("  {}  ", "x".repeat(252));
    let task = make(&padded, "  d  ", 100 + DAY, 30, Vec::new(), &ctx).unwrap();
    assert_eq!(task.title.chars().count(), 252);
    assert_eq!(task.title, task.title.trim());
    assert_eq!(task.description, "d");
    let short = make(" a ", "", 100 + DAY, 30, Vec::new(), &ctx).unwrap();
    assert_eq!(short.title, "a");
}

#[test]
fn a_task_that_passed_validation_passes_it_again_unchanged() {
    let ctx = context(100);
    let titles = [" a ", "b", "\ttabbed title\n", "  two  words  "];
    for title in titles {
        let mut task = make(title, "  some text ", 100 + DAY, 30, Vec::new(), &ctx).unwrap();
        let once = task.clone();
        assert_eq!(task.validate(&ctx), Ok(()));
        assert_eq!(task, once);
    }
}

#[test]
fn an_overdue_task_passes_the_rules_on_deadlines() {
    let ctx = context(100);
    let mut task = make("t", "", 200, 30, Vec::new(), &ctx).unwrap();
    let later = context(500);
    assert!(task.validate_deadline(&later).is_err());
    task.state = TaskState::Overdue;
    assert_eq!(task.validate_deadline(&later), Ok(()));
}

#[test]
fn the_single_rules_can_be_asked_one_by_one() {
    let ctx = context(100);
    let mut task = make("t", "", 200, 30, Vec::new(), &ctx).unwrap();
    task.title = " x ".to_string();
    assert_eq!(task.validate_title(), Ok(()));
    assert_eq!(task.title, "x");
    task.description = " y ".to_string();
    assert_eq!(task.validate_description(), Ok(()));
    assert_eq!(task.description, "y");
    assert_eq!(task.validate_estimated_time(), Ok(()));
    assert_eq!(task.validate_timing(), Ok(()));
    assert_eq!(task.validate_subtasks(), Ok(()));
    task.subtask_ids = vec!["a".to_string(), "b".to_string(), "a".to_string()];
    assert_eq!(
        task.validate_subtasks(),
        Err(TaskValidationError::Subtasks { reason: SubtaskError::DuplicateId, current_count: 3 })
    );
}

#[test]
fn a_created_task_can_be_started_and_then_completed() {
    let ctx = context(100);
    let mut task = make("t", "", 200, 30, Vec::new(), &ctx).unwrap();
    assert_eq!(task.transition_to(TaskState::InProgress, &ctx), Ok(()));
    assert_eq!(task.state, TaskState::InProgress);
    assert_eq!(task.transition_to(TaskState::Completed, &ctx), Ok(()));
    assert_eq!(task.state, TaskState::Completed);
}

#[test]
fn a_created_task_cannot_be_completed_at_once() {
    let ctx = context(100);
    let mut task = make("t", "", 200, 30, Vec::new(), &ctx).unwrap();
    assert_eq!(
        task.transition_to(TaskState::Completed, &ctx),
        Err(TaskError::State(TaskStateError::InvalidTransition {
            from: TaskState::Created,
            to: TaskState::Completed,
        }))
    );
    assert_eq!(task.state, TaskState::Created);
}

#[test]
fn a_task_becomes_overdue_only_after_its_deadline() {
    let ctx = context(100);
    let mut task = make("t", "", 200, 30, Vec::new(), &ctx).unwrap();
    let at_deadline = context(200);
    assert_eq!(
        task.transition_to(TaskState::Overdue, &at_deadline),
        Err(TaskError::State(TaskStateError::InvalidTransition {
            from: TaskState::Created,
            to: TaskState::Overdue,
        }))
    );
    let after = context(201);
    assert_eq!(task.transition_to(TaskState::Overdue, &after), Ok(()));
    assert_eq!(task.state, TaskState::Overdue);
    assert_eq!(task.transition_to(TaskState::Completed, &after), Ok(()));
    assert_eq!(task.state, TaskState::Completed);
}

#[test]
fn a_completed_task_goes_nowhere() {
    let ctx = context(100);
    let mut task = make("t", "", 200, 30, Vec::new(), &ctx).unwrap();
    task.state = TaskState::Completed;
    let after = context(500);
    for target in [TaskState::Created, TaskState::InProgress, TaskState::Completed, TaskState::Overdue] {
        assert_eq!(
            task.transition_to(target, &after),
            Err(TaskError::State(TaskStateError::InvalidTransition {
                from: TaskState::Completed,
                to: target,
            }))
        );
    }
}

#[test]
fn a_subtask_can_be_completed_from_any_state() {
    let ctx = context(100);
    for state in [TaskState::Created, TaskState::InProgress, TaskState::Completed, TaskState::Overdue] {
        let mut task = make("t", "", 200, 30, Vec::new(), &ctx).unwrap();
        task.parent_task_id = Some("task-alice-1".to_string());
        task.state = state;
        assert_eq!(task.transition_to(TaskState::Completed, &ctx), Ok(()));
        assert_eq!(task.state, TaskState::Completed);
    }
}

#[test]
fn a_subtask_is_listed_once() {
    let ctx = context(100);
    let mut task = make("t", "", 200, 30, Vec::new(), &ctx).unwrap();
    assert_eq!(task.add_subtask("task-alice-1".to_string()), Ok(()));
    assert_eq!(task.add_subtask("task-alice-2".to_string()), Ok(()));
    assert_eq!(
        task.add_subtask("task-alice-1".to_string()),
        Err(TaskError::Validation(TaskValidationError::Subtasks {
            reason: SubtaskError::DuplicateId,
            current_count: 2,
        }))
    );
    assert_eq!(task.subtask_ids, vec!["task-alice-1".to_string(), "task-alice-2".to_string()]);
}

#[test]
fn a_completed_task_may_not_be_updated() {
    let ctx = context(100);
    let mut task = make("t", "", 200, 30, Vec::new(), &ctx).unwrap();
    assert_eq!(task.validate_state_for_action(TaskAction::Update), Ok(()));
    task.state = TaskState::Completed;
    assert_eq!(
        task.validate_state_for_action(TaskAction::Update),
        Err(TaskStateError::InvalidActionForState {
            state: TaskState::Completed,
            action: TaskAction::Update,
        })
    );
    assert_eq!(task.validate_state_for_action(TaskAction::Delete), Ok(()));
    assert_eq!(task.validate_state_for_action(TaskAction::Start), Ok(()));
    assert_eq!(task.validate_state_for_action(TaskAction::Complete), Ok(()));
}
