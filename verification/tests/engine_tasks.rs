use task_engine::context::Context;
use task_engine::contract::Contract;
use task_engine::errors::{ContractError, IndexType};
use task_engine::models::task::{Priority, Task, TaskState, TaskTimeSlot};
use task_engine::models::time_slot::{DayOfWeek, Frequency, RecurrencePattern};
use task_engine::models::traits::{OwnershipError, StorageError};
use task_engine::response::Response;

const DAY: u64 = 86_400_000_000_000;
const MINUTE: u64 = 60_000_000_000;

fn alice(now: u64) -> Context {
    Context::new("alice".to_string(), now, u128::MAX, 1)
}

fn bob(now: u64) -> Context {
    Context::new("bob".to_string(), now, u128::MAX, 1)
}

fn add(engine: &mut Contract, title: &str, minutes: u32, priority: Priority, parent: Option<&str>, ctx: &Context) -> String {
    match engine.add_task(
        title.to_string(),
        String::new(),
        priority,
        ctx.now + 30 * DAY,
        minutes,
        None,
        parent.map(|p| p.to_string()),
        None,
        ctx,
    ) {
        Response::Success(id) => id,
        Response::Error(e) => panic!("add_task failed: {:?}", e),
    }
}

fn tasks_of(engine: &Contract, owner: &str) -> Vec<Task> {
    match engine.get_tasks_by_owner(owner.to_string()) {
        Response::Success(tasks) => tasks,
        Response::Error(e) => panic!("no tasks: {:?}", e),
    }
}

fn task(engine: &Contract, owner: &str, id: &str) -> Task {
    tasks_of(engine, owner).into_iter().find(|t| t.id == id).unwrap()
}

fn points(engine: &Contract, owner: &str) -> u32 {
    match engine.get_reward_points(&owner.to_string()) {
        Response::Success(points) => points,
        Response::Error(e) => panic!("no points: {:?}", e),
    }
}

fn not_found(entity: &str, message: &str) -> ContractError {
    ContractError::NotFound(entity.to_string(), message.to_string())
}

fn not_owner() -> ContractError {
    ContractError::AccessError(OwnershipError::NotOwner)
}

fn state_error(from: &str, to: &str) -> ContractError {
    ContractError::StateError(
        "Task".to_string(),
        from.to_string(),
        format!("transition to {}", to),
        "Invalid state transition".to_string(),
    )
}

#[test]
fn an_empty_engine_knows_no_one() {
    let engine = Contract::new();
    assert_eq!(
        engine.get_tasks_by_owner("alice".to_string()),
        Response::Error(not_found("Task", "No tasks found for alice"))
    );
    assert_eq!(
        engine.get_habits_by_owner("alice".to_string()),
        Response::Error(not_found("Habit", "No habits found for alice"))
    );
    assert_eq!(engine.indexed_ids(&"alice".to_string(), IndexType::Task), None);
    assert_eq!(points(&engine, "alice"), 0);
}

#[test]
fn an_added_task_is_stored_and_indexed_for_the_caller() {
    let mut engine = Contract::new();
    let ctx = alice(100);
    let id = add(&mut engine, "  Tidy desk ", 45, Priority::Medium, None, &ctx);
    assert_eq!(id, "task-alice-100");
    let stored = tasks_of(&engine, "alice");
    assert_eq!(stored.len(), 1);
    assert_eq!(stored[0].id, "task-alice-100");
    assert_eq!(stored[0].title, "Tidy desk");
    assert_eq!(stored[0].reward_points, 4);
    assert_eq!(stored[0].state, TaskState::Created);
    assert_eq!(stored[0].owner_id, "alice");
    assert_eq!(
        engine.indexed_ids(&"alice".to_string(), IndexType::Task),
        Some(vec!["task-alice-100".to_string()])
    );
    assert_eq!(engine.indexed_ids(&"bob".to_string(), IndexType::Task), None);
}

#[test]
fn an_invalid_task_is_not_stored() {
    let mut engine = Contract::new();
    let ctx = alice(100);
    let r = engine.add_task(
        String::new(),
        String::new(),
        Priority::Low,
        100 + DAY,
        30,
        None,
        None,
        None,
        &ctx,
    );
    assert_eq!(
        r,
        Response::Error(ContractError::ValidationError(
            "Task".to_string(),
            "Title validation error: Empty (length: 0)".to_string(),
            None
        ))
    );
    assert_eq!(engine.indexed_ids(&"alice".to_string(), IndexType::Task), None);
}

#[test]
fn a_subtask_needs_a_parent_of_the_caller() {
    let mut engine = Contract::new();
    let parent = add(&mut engine, "parent", 30, Priority::Low, None, &alice(1));
    let missing = engine.add_task(
        "child".to_string(),
        String::new(),
        Priority::Low,
        DAY,
        30,
        None,
        Some("task-alice-999".to_string()),
        None,
        &alice(2),
    );
    assert_eq!(
        missing,
        Response::Error(not_found("Parent Task", "Parent task task-alice-999 not found"))
    );
    let foreign = engine.add_task(
        "child".to_string(),
        String::new(),
        Priority::Low,
        DAY,
        30,
        None,
        Some(parent.clone()),
        None,
        &bob(2),
    );
    assert_eq!(foreign, Response::Error(not_owner()));
    assert_eq!(tasks_of(&engine, "alice").len(), 1);
    assert!(task(&engine, "alice", &parent).subtask_ids.is_empty());
}

#[test]
fn a_subtask_is_listed_by_its_parent() {
    let mut engine = Contract::new();
    let parent = add(&mut engine, "parent", 30, Priority::Low, None, &alice(1));
    let first = add(&mut engine, "first", 30, Priority::Low, Some(&parent), &alice(2));
    let second = add(&mut engine, "second", 30, Priority::Low, Some(&parent), &alice(3));
    assert_eq!(task(&engine, "alice", &parent).subtask_ids, vec![first.clone(), second.clone()]);
    assert_eq!(task(&engine, "alice", &first).parent_task_id, Some(parent.clone()));
    assert_eq!(task(&engine, "alice", &second).parent_task_id, Some(parent.clone()));
    assert_eq!(
        engine.indexed_ids(&"alice".to_string(), IndexType::Task),
        Some(vec![parent, first, second])
    );
}

#[test]
fn a_subtask_that_its_parent_lists_already_is_refused_and_nothing_is_written() {
    let mut engine = Contract::new();
    let parent = add(&mut engine, "parent", 30, Priority::Low, None, &alice(1));
    let first = add(&mut engine, "first", 30, Priority::Low, Some(&parent), &alice(2));
    // The subtask is deleted on its own: its parent goes on listing it.
    assert_eq!(engine.delete_task(first.clone(), &alice(3)), Response::Success(first.clone()));
    let again = engine.add_task(
        "changed".to_string(),
        String::new(),
        Priority::Low,
        DAY,
        30,
        None,
        Some(parent.clone()),
        None,
        &alice(2),
    );
    assert_eq!(
        again,
        Response::Error(ContractError::ValidationError(
            "Task".to_string(),
            "Subtasks validation error: DuplicateId (count: 1)".to_string(),
            None
        ))
    );
    assert_eq!(tasks_of(&engine, "alice").len(), 1);
    assert_eq!(task(&engine, "alice", &parent).subtask_ids, vec![first]);
}

#[test]
fn a_task_is_not_written_over_by_one_made_at_the_same_time() {
    let mut engine = Contract::new();
    let parent = add(&mut engine, "parent", 30, Priority::Low, None, &alice(1));
    let first = add(&mut engine, "first", 90, Priority::High, Some(&parent), &alice(2));
    let before = tasks_of(&engine, "alice");
    for with_parent in [Some(parent.clone()), None] {
        let again = engine.add_task(
            "changed".to_string(),
            String::new(),
            Priority::Low,
            DAY,
            30,
            None,
            with_parent,
            Some(RecurrencePattern::new_daily()),
            &alice(2),
        );
        assert_eq!(
            again,
            Response::Error(ContractError::Operation(
                "Task already exists: task-alice-2".to_string()
            ))
        );
    }
    assert_eq!(tasks_of(&engine, "alice"), before);
    assert_eq!(task(&engine, "alice", &first).title, "first");
    assert_eq!(engine.indexed_ids(&"alice".to_string(), IndexType::Habit), None);
    // Another owner may make a task at the same time.
    assert_eq!(add(&mut engine, "other", 30, Priority::Low, None, &bob(2)), "task-bob-2");
}

#[test]
fn a_habit_is_not_written_over_by_one_made_at_the_same_time() {
    let mut engine = Contract::new();
    let recurring = |engine: &mut Contract, title: &str| {
        engine.add_task(
            title.to_string(),
            String::new(),
            Priority::Low,
            DAY,
            30,
            None,
            None,
            Some(RecurrencePattern::new_daily()),
            &alice(1),
        )
    };
    assert_eq!(recurring(&mut engine, "run"), Response::Success("task-alice-1".to_string()));
    // The task is deleted; its habit stays.
    assert_eq!(
        engine.delete_task("task-alice-1".to_string(), &alice(2)),
        Response::Success("task-alice-1".to_string())
    );
    assert_eq!(
        recurring(&mut engine, "swim"),
        Response::Error(ContractError::Operation(
            "Habit already exists: habit-alice-1".to_string()
        ))
    );
    assert_eq!(engine.indexed_ids(&"alice".to_string(), IndexType::Task), Some(Vec::new()));
    assert_eq!(
        engine.indexed_ids(&"alice".to_string(), IndexType::Habit),
        Some(vec!["habit-alice-1".to_string()])
    );
}

#[test]
fn a_recurring_task_gets_a_habit() {
    let mut engine = Contract::new();
    let ctx = alice(50);
    let r = engine.add_task(
        "run".to_string(),
        String::new(),
        Priority::Low,
        50 + DAY,
        30,
        None,
        None,
        Some(RecurrencePattern::new_daily()),
        &ctx,
    );
    assert_eq!(r, Response::Success("task-alice-50".to_string()));
    let habits = match engine.get_habits_by_owner("alice".to_string()) {
        Response::Success(habits) => habits,
        Response::Error(e) => panic!("no habits: {:?}", e),
    };
    assert_eq!(habits.len(), 1);
    assert_eq!(habits[0].id, "habit-alice-50");
    assert_eq!(habits[0].task_id, "task-alice-50");
    assert_eq!(habits[0].streak, 0);
    assert_eq!(habits[0].last_completed, 0);
    assert_eq!(engine.get_habit_streak("habit-alice-50".to_string(), &ctx), Response::Success(0));
    assert_eq!(
        engine.get_habit_streak("habit-alice-50".to_string(), &bob(50)),
        Response::Error(not_owner())
    );
    assert_eq!(
        engine.get_habit_streak("habit-alice-51".to_string(), &ctx),
        Response::Error(not_found("Habit", "Habit habit-alice-51 not found"))
    );
}

#[test]
fn a_recurring_task_beyond_the_quota_leaves_nothing_behind() {
    let mut engine = Contract::new();
    // "task-alice-50" has 13 bytes, the title 1, the owner 5: 275 bytes in all.
    let tight = Context::new("alice".to_string(), 50, 150, 1);
    let refused = engine.add_task(
        "t".to_string(),
        String::new(),
        Priority::Low,
        50 + DAY,
        30,
        None,
        None,
        Some(RecurrencePattern::new_daily()),
        &tight,
    );
    assert_eq!(
        refused,
        Response::Error(ContractError::StorageError(StorageError::InsufficientBalance {
            required: 275,
            available: 150,
        }))
    );
    assert_eq!(engine.indexed_ids(&"alice".to_string(), IndexType::Task), None);
    assert_eq!(engine.indexed_ids(&"alice".to_string(), IndexType::Habit), None);
}

#[test]
fn only_the_owner_updates_a_task() {
    let mut engine = Contract::new();
    let id = add(&mut engine, "old", 30, Priority::Low, None, &alice(1));
    let r = engine.update_task(
        id.clone(),
        "new".to_string(),
        String::new(),
        Priority::High,
        9 * DAY,
        90,
        None,
        &bob(2),
    );
    assert_eq!(r, Response::Error(not_owner()));
    assert_eq!(task(&engine, "alice", &id).title, "old");
    let missing = engine.update_task(
        "task-alice-7".to_string(),
        "new".to_string(),
        String::new(),
        Priority::High,
        9 * DAY,
        90,
        None,
        &alice(2),
    );
    assert_eq!(missing, Response::Error(not_found("Task", "Task task-alice-7 not found")));
}

#[test]
fn an_update_overwrites_the_fields_and_computes_the_reward_anew() {
    let mut engine = Contract::new();
    let id = add(&mut engine, "old", 30, Priority::Low, None, &alice(1));
    let slots = vec![TaskTimeSlot { start_time: 100, end_time: 200 }];
    let r = engine.update_task(
        id.clone(),
        "  new  ".to_string(),
        " text ".to_string(),
        Priority::High,
        9 * DAY,
        90,
        Some(slots.clone()),
        &alice(2),
    );
    assert_eq!(r, Response::Success(id.clone()));
    let stored = task(&engine, "alice", &id);
    assert_eq!(stored.title, "new");
    assert_eq!(stored.description, "text");
    assert_eq!(stored.priority, Priority::High);
    assert_eq!(stored.deadline, 9 * DAY);
    assert_eq!(stored.estimated_time, 90);
    assert_eq!(stored.reward_points, 9);
    assert_eq!(stored.time_slots, slots);
    // Without new slots the task keeps the slots that it has.
    let again = engine.update_task(
        id.clone(),
        "newer".to_string(),
        String::new(),
        Priority::Low,
        9 * DAY,
        30,
        None,
        &alice(3),
    );
    assert_eq!(again, Response::Success(id.clone()));
    assert_eq!(task(&engine, "alice", &id).time_slots, slots);
    assert_eq!(task(&engine, "alice", &id).reward_points, 1);
}

#[test]
fn an_invalid_update_changes_nothing() {
    let mut engine = Contract::new();
    let id = add(&mut engine, "old", 30, Priority::Low, None, &alice(1));
    let before = task(&engine, "alice", &id);
    let r = engine.update_task(
        id.clone(),
        "new".to_string(),
        String::new(),
        Priority::High,
        2,
        90,
        None,
        &alice(2),
    );
    assert_eq!(
        r,
        Response::Error(ContractError::ValidationError(
            "Task".to_string(),
            "Deadline validation error: PastDeadline (time: 2)".to_string(),
            None
        ))
    );
    assert_eq!(task(&engine, "alice", &id), before);
}

#[test]
fn starting_a_task_sets_its_estimated_time_aside() {
    let mut engine = Contract::new();
    let id = add(&mut engine, "work", 90, Priority::Low, None, &alice(1));
    let r = engine.start_task(id.clone(), 1_000, &alice(2));
    assert_eq!(r, Response::Success(id.clone()));
    let stored = task(&engine, "alice", &id);
    assert_eq!(stored.state, TaskState::InProgress);
    assert_eq!(
        stored.time_slots,
        vec![TaskTimeSlot { start_time: 1_000, end_time: 1_000 + 90 * MINUTE }]
    );
}

#[test]
fn a_task_is_started_once() {
    let mut engine = Contract::new();
    let id = add(&mut engine, "work", 90, Priority::Low, None, &alice(1));
    assert_eq!(engine.start_task(id.clone(), 1_000, &alice(2)), Response::Success(id.clone()));
    let again = engine.start_task(id.clone(), DAY, &alice(3));
    assert_eq!(again, Response::Error(state_error("InProgress", "InProgress")));
    assert_eq!(task(&engine, "alice", &id).time_slots.len(), 1);
}

#[test]
fn a_start_that_clashes_or_ends_after_the_deadline_is_refused() {
    let mut engine = Contract::new();
    let id = add(&mut engine, "work", 90, Priority::Low, None, &alice(1));
    let late = engine.start_task(id.clone(), 1 + 30 * DAY, &alice(2));
    assert_eq!(
        late,
        Response::Error(ContractError::ValidationError(
            "Task".to_string(),
            format!("Deadline validation error: BeforeEndTime (time: {})", 1 + 30 * DAY),
            None
        ))
    );
    let beyond = engine.start_task(id.clone(), u64::MAX, &alice(2));
    assert_eq!(
        beyond,
        Response::Error(ContractError::Operation("Scheduled time is out of range".to_string()))
    );
    assert_eq!(engine.start_task(id.clone(), 5, &bob(2)), Response::Error(not_owner()));
    assert_eq!(task(&engine, "alice", &id).state, TaskState::Created);
    assert!(task(&engine, "alice", &id).time_slots.is_empty());
}

#[test]
fn splitting_a_task_makes_slots_between_the_sorted_times() {
    let mut engine = Contract::new();
    let id = add(&mut engine, "work", 90, Priority::Low, None, &alice(1));
    let r = engine.split_task(id.clone(), vec![100, 200, 300], &alice(2));
    assert_eq!(r, Response::Success(id.clone()));
    let stored = task(&engine, "alice", &id);
    assert_eq!(
        stored.time_slots,
        vec![
            TaskTimeSlot { start_time: 100, end_time: 200 },
            TaskTimeSlot { start_time: 200, end_time: 300 },
        ]
    );
    assert_eq!(stored.state, TaskState::InProgress);
}

#[test]
fn splitting_sorts_the_times_and_replaces_the_slots() {
    let mut engine = Contract::new();
    let id = add(&mut engine, "work", 90, Priority::Low, None, &alice(1));
    assert_eq!(engine.start_task(id.clone(), 7_000, &alice(2)), Response::Success(id.clone()));
    let r = engine.split_task(id.clone(), vec![900, 100, 500, 300], &alice(3));
    assert_eq!(r, Response::Success(id.clone()));
    let stored = task(&engine, "alice", &id);
    assert_eq!(
        stored.time_slots,
        vec![
            TaskTimeSlot { start_time: 100, end_time: 300 },
            TaskTimeSlot { start_time: 300, end_time: 500 },
            TaskTimeSlot { start_time: 500, end_time: 900 },
        ]
    );
    assert_eq!(stored.state, TaskState::InProgress);
}

#[test]
fn splitting_leaves_the_state_of_a_task_that_was_not_only_created() {
    let mut engine = Contract::new();
    let id = add(&mut engine, "work", 90, Priority::Low, None, &alice(1));
    assert_eq!(
        engine.mark_task_overdue(id.clone(), &alice(2 + 30 * DAY)),
        Response::Success(id.clone())
    );
    let r = engine.split_task(id.clone(), vec![100, 200], &alice(3 + 30 * DAY));
    assert_eq!(r, Response::Success(id.clone()));
    assert_eq!(task(&engine, "alice", &id).state, TaskState::Overdue);
}

#[test]
fn splitting_needs_two_times_that_differ() {
    let mut engine = Contract::new();
    let id = add(&mut engine, "work", 90, Priority::Low, None, &alice(1));
    let too_few = ContractError::ValidationError(
        "Task".to_string(),
        "Need at least two split points to split a task".to_string(),
        None,
    );
    assert_eq!(engine.split_task(id.clone(), Vec::new(), &alice(2)), Response::Error(too_few));
    let too_few = ContractError::ValidationError(
        "Task".to_string(),
        "Need at least two split points to split a task".to_string(),
        None,
    );
    assert_eq!(engine.split_task(id.clone(), vec![5], &alice(2)), Response::Error(too_few));
    // The number of times is checked before the task is looked for.
    let too_few = ContractError::ValidationError(
        "Task".to_string(),
        "Need at least two split points to split a task".to_string(),
        None,
    );
    assert_eq!(
        engine.split_task("task-alice-9".to_string(), vec![5], &alice(2)),
        Response::Error(too_few)
    );
    assert_eq!(
        engine.split_task("task-alice-9".to_string(), vec![5, 6], &alice(2)),
        Response::Error(not_found("Task", "Task task-alice-9 not found"))
    );
    assert_eq!(
        engine.split_task(id.clone(), vec![5, 5], &alice(2)),
        Response::Error(ContractError::ValidationError(
            "Task".to_string(),
            "Timing validation error: EndBeforeStart (time: 5)".to_string(),
            None
        ))
    );
    assert!(task(&engine, "alice", &id).time_slots.is_empty());
    assert_eq!(task(&engine, "alice", &id).state, TaskState::Created);
}

#[test]
fn a_task_is_overdue_only_after_its_deadline() {
    let mut engine = Contract::new();
    let id = add(&mut engine, "work", 90, Priority::Low, None, &alice(1));
    assert_eq!(engine.start_task(id.clone(), 1_000, &alice(2)), Response::Success(id.clone()));
    let early = engine.mark_task_overdue(id.clone(), &alice(1 + 30 * DAY));
    assert_eq!(
        early,
        Response::Error(ContractError::ValidationError(
            "Task".to_string(),
            "Cannot mark as overdue before deadline".to_string(),
            None
        ))
    );
    assert_eq!(
        engine.mark_task_overdue(id.clone(), &bob(2 + 30 * DAY)),
        Response::Error(not_owner())
    );
    let r = engine.mark_task_overdue(id.clone(), &alice(2 + 30 * DAY));
    assert_eq!(r, Response::Success(id.clone()));
    let stored = task(&engine, "alice", &id);
    assert_eq!(stored.state, TaskState::Overdue);
    assert!(stored.time_slots.is_empty());
    let again = engine.mark_task_overdue(id.clone(), &alice(3 + 30 * DAY));
    assert_eq!(again, Response::Error(state_error("Overdue", "Overdue")));
}

#[test]
fn completing_a_task_credits_its_reward() {
    let mut engine = Contract::new();
    let id = add(&mut engine, "work", 150, Priority::Medium, None, &alice(1));
    assert_eq!(engine.start_task(id.clone(), 1_000, &alice(2)), Response::Success(id.clone()));
    assert_eq!(engine.complete_task(id.clone(), &alice(3)), Response::Success(id.clone()));
    let stored = task(&engine, "alice", &id);
    assert_eq!(stored.state, TaskState::Completed);
    assert!(stored.time_slots.is_empty());
    assert_eq!(points(&engine, "alice"), 10);
    assert_eq!(points(&engine, "bob"), 0);
    assert_eq!(
        engine.get_task_completion_history(id.clone(), &alice(4)),
        Response::Success(vec![3])
    );
}

#[test]
fn a_task_that_was_not_started_cannot_be_completed() {
    let mut engine = Contract::new();
    let id = add(&mut engine, "work", 150, Priority::Medium, None, &alice(1));
    assert_eq!(
        engine.complete_task(id.clone(), &alice(3)),
        Response::Error(state_error("Created", "Completed"))
    );
    assert_eq!(engine.complete_task(id.clone(), &bob(3)), Response::Error(not_owner()));
    assert_eq!(
        engine.complete_task("task-alice-5".to_string(), &alice(3)),
        Response::Error(not_found("Task", "Task task-alice-5 not found"))
    );
    assert_eq!(points(&engine, "alice"), 0);
    assert_eq!(
        engine.get_task_completion_history(id.clone(), &alice(4)),
        Response::Success(Vec::new())
    );
}

#[test]
fn completing_a_parent_completes_its_subtasks_first() {
    let mut engine = Contract::new();
    let parent = add(&mut engine, "parent", 60, Priority::Low, None, &alice(1));
    let first = add(&mut engine, "first", 30, Priority::High, Some(&parent), &alice(2));
    let second = add(&mut engine, "second", 45, Priority::Critical, Some(&parent), &alice(3));
    assert_eq!(
        engine.start_task(parent.clone(), 1_000, &alice(4)),
        Response::Success(parent.clone())
    );
    assert_eq!(engine.complete_task(parent.clone(), &alice(5)), Response::Success(parent.clone()));
    assert_eq!(task(&engine, "alice", &first).state, TaskState::Completed);
    assert_eq!(task(&engine, "alice", &second).state, TaskState::Completed);
    assert_eq!(task(&engine, "alice", &parent).state, TaskState::Completed);
    // 3 for the first, 8 for the second, 2 for the parent.
    assert_eq!(points(&engine, "alice"), 13);
}

#[test]
fn what_is_written_before_a_step_fails_stays_written() {
    let mut engine = Contract::new();
    let parent = add(&mut engine, "parent", 60, Priority::Low, None, &alice(1));
    let child = add(&mut engine, "child", 30, Priority::High, Some(&parent), &alice(2));
    // The parent was never started: its subtask is completed and credited,
    // and then the parent is refused.
    assert_eq!(
        engine.complete_task(parent.clone(), &alice(5)),
        Response::Error(state_error("Created", "Completed"))
    );
    assert_eq!(task(&engine, "alice", &child).state, TaskState::Completed);
    assert_eq!(task(&engine, "alice", &parent).state, TaskState::Created);
    assert_eq!(points(&engine, "alice"), 3);
    assert_eq!(
        engine.get_task_completion_history(parent.clone(), &alice(6)),
        Response::Success(Vec::new())
    );
}

#[test]
fn a_missing_subtask_stops_the_completion() {
    let mut engine = Contract::new();
    let parent = add(&mut engine, "parent", 60, Priority::Low, None, &alice(1));
    let first = add(&mut engine, "first", 30, Priority::High, Some(&parent), &alice(2));
    let second = add(&mut engine, "second", 30, Priority::High, Some(&parent), &alice(3));
    let third = add(&mut engine, "third", 30, Priority::High, Some(&parent), &alice(4));
    assert_eq!(engine.delete_task(second.clone(), &alice(5)), Response::Success(second.clone()));
    assert_eq!(
        engine.start_task(parent.clone(), 1_000, &alice(6)),
        Response::Success(parent.clone())
    );
    assert_eq!(
        engine.complete_task(parent.clone(), &alice(7)),
        Response::Error(not_found("Subtask", "Subtask task-alice-3 not found"))
    );
    assert_eq!(task(&engine, "alice", &first).state, TaskState::Completed);
    assert_eq!(task(&engine, "alice", &third).state, TaskState::Created);
    assert_eq!(task(&engine, "alice", &parent).state, TaskState::InProgress);
    assert_eq!(points(&engine, "alice"), 3);
}

#[test]
fn a_completed_daily_habit_begins_anew_a_day_later() {
    let mut engine = Contract::new();
    let created = alice(1_000);
    let id = match engine.add_task(
        "run".to_string(),
        String::new(),
        Priority::Low,
        1_000 + 2 * DAY,
        30,
        None,
        None,
        Some(RecurrencePattern::new_daily()),
        &created,
    ) {
        Response::Success(id) => id,
        Response::Error(e) => panic!("add_task failed: {:?}", e),
    };
    assert_eq!(engine.start_task(id.clone(), 2_000, &alice(1_500)), Response::Success(id.clone()));
    let completion_time = 5_000;
    assert_eq!(
        engine.complete_task(id.clone(), &alice(completion_time)),
        Response::Success(id.clone())
    );
    let stored = task(&engine, "alice", &id);
    assert_eq!(stored.id, id);
    assert_eq!(stored.state, TaskState::Created);
    assert_eq!(stored.deadline, completion_time + 86_400_000_000_000);
    assert!(stored.time_slots.is_empty());
    assert_eq!(
        engine.get_habit_streak("habit-alice-1000".to_string(), &created),
        Response::Success(1)
    );
    let habits = match engine.get_habits_by_owner("alice".to_string()) {
        Response::Success(habits) => habits,
        Response::Error(e) => panic!("no habits: {:?}", e),
    };
    assert_eq!(habits[0].last_completed, completion_time);
    assert_eq!(habits[0].task_id, id);
    assert_eq!(points(&engine, "alice"), 1);
    assert_eq!(
        engine.get_task_completion_history(id.clone(), &created),
        Response::Success(vec![completion_time])
    );
}

#[test]
fn a_streak_grows_in_time_and_begins_anew_when_late() {
    let mut engine = Contract::new();
    let id = match engine.add_task(
        "run".to_string(),
        String::new(),
        Priority::Low,
        2 * DAY,
        30,
        None,
        None,
        Some(RecurrencePattern::new_daily()),
        &alice(1_000),
    ) {
        Response::Success(id) => id,
        Response::Error(e) => panic!("add_task failed: {:?}", e),
    };
    let habit = "habit-alice-1000".to_string();
    let mut now = 5_000;
    for expected in [1u32, 2, 3] {
        assert_eq!(engine.start_task(id.clone(), now + 1, &alice(now)), Response::Success(id.clone()));
        now += DAY / 2;
        assert_eq!(engine.complete_task(id.clone(), &alice(now)), Response::Success(id.clone()));
        assert_eq!(engine.get_habit_streak(habit.clone(), &alice(now)), Response::Success(expected));
    }
    // More than a day later the streak begins anew.
    assert_eq!(engine.start_task(id.clone(), now + 1, &alice(now)), Response::Success(id.clone()));
    now += DAY + 1;
    assert_eq!(engine.complete_task(id.clone(), &alice(now)), Response::Success(id.clone()));
    assert_eq!(engine.get_habit_streak(habit.clone(), &alice(now)), Response::Success(0));
    assert_eq!(task(&engine, "alice", &id).deadline, now + DAY);
    assert_eq!(points(&engine, "alice"), 4);
}

#[test]
fn a_custom_habit_is_next_due_on_its_day() {
    let mut engine = Contract::new();
    let pattern = RecurrencePattern {
        frequency: Frequency::Custom,
        interval: None,
        specific_days: Some(vec![DayOfWeek::Monday]),
    };
    // Time 1000 lies on a Thursday; the next Monday is four days on.
    let id = match engine.add_task(
        "review".to_string(),
        String::new(),
        Priority::Low,
        2 * DAY,
        30,
        None,
        None,
        Some(pattern),
        &alice(1_000),
    ) {
        Response::Success(id) => id,
        Response::Error(e) => panic!("add_task failed: {:?}", e),
    };
    assert_eq!(engine.start_task(id.clone(), 2_000, &alice(1_500)), Response::Success(id.clone()));
    assert_eq!(engine.complete_task(id.clone(), &alice(3_000)), Response::Success(id.clone()));
    assert_eq!(task(&engine, "alice", &id).deadline, 3_000 + 4 * DAY);
    assert_eq!(task(&engine, "alice", &id).state, TaskState::Created);
}

#[test]
fn deleting_a_task_removes_it_and_its_subtasks_everywhere() {
    let mut engine = Contract::new();
    let parent = add(&mut engine, "parent", 60, Priority::Low, None, &alice(1));
    let first = add(&mut engine, "first", 30, Priority::Low, Some(&parent), &alice(2));
    let second = add(&mut engine, "second", 30, Priority::Low, Some(&parent), &alice(3));
    let other = add(&mut engine, "other", 30, Priority::Low, None, &alice(4));
    assert_eq!(engine.delete_task(parent.clone(), &alice(5)), Response::Success(parent.clone()));
    assert_eq!(
        engine.indexed_ids(&"alice".to_string(), IndexType::Task),
        Some(vec![other.clone()])
    );
    let left = tasks_of(&engine, "alice");
    assert_eq!(left.len(), 1);
    assert_eq!(left[0].id, other);
    for gone in [parent, first, second] {
        assert_eq!(
            engine.delete_task(gone.clone(), &alice(6)),
            Response::Error(not_found("Task", &format!("Task {} not found", gone)))
        );
        assert_eq!(
            engine.get_task_completion_history(gone.clone(), &alice(6)),
            Response::Error(not_found("Task", &format!("Task {} not found", gone)))
        );
    }
}

#[test]
fn deleting_the_last_task_leaves_the_owner_with_an_empty_index() {
    let mut engine = Contract::new();
    let parent = add(&mut engine, "parent", 60, Priority::Low, None, &alice(1));
    add(&mut engine, "first", 30, Priority::Low, Some(&parent), &alice(2));
    add(&mut engine, "second", 30, Priority::Low, Some(&parent), &alice(3));
    assert_eq!(engine.delete_task(parent.clone(), &alice(5)), Response::Success(parent));
    assert_eq!(engine.indexed_ids(&"alice".to_string(), IndexType::Task), Some(Vec::new()));
    assert_eq!(
        engine.get_tasks_by_owner("alice".to_string()),
        Response::Error(not_found("Task", "No tasks found for alice"))
    );
}

#[test]
fn only_the_owner_deletes_a_task() {
    let mut engine = Contract::new();
    let id = add(&mut engine, "mine", 60, Priority::Low, None, &alice(1));
    assert_eq!(engine.delete_task(id.clone(), &bob(2)), Response::Error(not_owner()));
    assert_eq!(tasks_of(&engine, "alice").len(), 1);
}

#[test]
fn tasks_are_listed_by_completion() {
    let mut engine = Contract::new();
    let done = add(&mut engine, "done", 60, Priority::Low, None, &alice(1));
    let open = add(&mut engine, "open", 60, Priority::Low, None, &alice(2));
    assert_eq!(
        engine.get_completed_tasks("alice".to_string()),
        Response::Error(not_found("Task", "No completed tasks found for alice"))
    );
    assert_eq!(engine.start_task(done.clone(), 1_000, &alice(3)), Response::Success(done.clone()));
    assert_eq!(engine.complete_task(done.clone(), &alice(4)), Response::Success(done.clone()));
    let completed = match engine.get_completed_tasks("alice".to_string()) {
        Response::Success(tasks) => tasks,
        Response::Error(e) => panic!("none completed: {:?}", e),
    };
    assert_eq!(completed.len(), 1);
    assert_eq!(completed[0].id, done);
    let incomplete = match engine.get_incomplete_tasks("alice".to_string()) {
        Response::Success(tasks) => tasks,
        Response::Error(e) => panic!("none incomplete: {:?}", e),
    };
    assert_eq!(incomplete.len(), 1);
    assert_eq!(incomplete[0].id, open);
    assert_eq!(engine.delete_task(open, &alice(5)), Response::Success("task-alice-2".to_string()));
    assert_eq!(
        engine.get_incomplete_tasks("alice".to_string()),
        Response::Error(not_found("Task", "No incomplete tasks found for alice"))
    );
    assert_eq!(
        engine.get_incomplete_tasks("bob".to_string()),
        Response::Error(not_found("Task", "No tasks found for bob"))
    );
}

#[test]
fn the_history_of_a_task_is_for_its_owner() {
    let mut engine = Contract::new();
    let id = add(&mut engine, "mine", 60, Priority::Low, None, &alice(1));
    assert_eq!(
        engine.get_task_completion_history(id, &bob(2)),
        Response::Error(not_owner())
    );
}

#[test]
fn an_account_without_a_name_has_no_points() {
    let engine = Contract::new();
    assert_eq!(
        engine.get_reward_points(&String::new()),
        Response::Error(ContractError::ValidationError(
            "Account".to_string(),
            "Account ID cannot be empty".to_string(),
            None
        ))
    );
}

#[test]
fn a_next_deadline_beyond_the_largest_time_stops_the_completion() {
    let mut engine = Contract::new();
    let pattern =
        RecurrencePattern { frequency: Frequency::Daily, interval: Some(u32::MAX), specific_days: None };
    let id = match engine.add_task(
        "rarely".to_string(),
        String::new(),
        Priority::Low,
        DAY,
        30,
        None,
        None,
        Some(pattern),
        &alice(1),
    ) {
        Response::Success(id) => id,
        Response::Error(e) => panic!("add_task failed: {:?}", e),
    };
    assert_eq!(engine.start_task(id.clone(), 100, &alice(2)), Response::Success(id.clone()));
    assert_eq!(
        engine.complete_task(id.clone(), &alice(3)),
        Response::Error(ContractError::Operation("Deadline is out of range".to_string()))
    );
    assert_eq!(task(&engine, "alice", &id).state, TaskState::InProgress);
    assert_eq!(points(&engine, "alice"), 0);
    assert_eq!(
        engine.get_task_completion_history(id.clone(), &alice(4)),
        Response::Success(vec![3])
    );
    assert_eq!(engine.get_habit_streak("habit-alice-1".to_string(), &alice(4)), Response::Success(0));
}

#[test]
fn a_caller_without_a_name_earns_no_points() {
    let mut engine = Contract::new();
    let nobody = Context::new(String::new(), 1, u128::MAX, 1);
    let id = add(&mut engine, "work", 30, Priority::Low, None, &nobody);
    assert_eq!(id, "task--1");
    assert_eq!(engine.start_task(id.clone(), 100, &nobody), Response::Success(id.clone()));
    assert_eq!(
        engine.complete_task(id.clone(), &nobody),
        Response::Error(ContractError::ValidationError(
            "Account".to_string(),
            "Account ID cannot be empty".to_string(),
            None
        ))
    );
    assert_eq!(task(&engine, "", &id).state, TaskState::InProgress);
}
