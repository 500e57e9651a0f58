use task_engine::context::Context;
use task_engine::contract::archive::{History, Snapshot};
use task_engine::contract::Contract;
use task_engine::errors::IndexType;
use task_engine::ledger::Balance;
use task_engine::models::reward::Reward;
use task_engine::models::task::{Priority, Task};
use task_engine::models::time_slot::{RecurrencePattern, SlotType};
use task_engine::registry::id_names_owner;
use task_engine::response::Response;

const DAY: u64 = 86_400_000_000_000;

fn alice(now: u64) -> Context {
    Context::new("alice".to_string(), now, u128::MAX, 1)
}

fn bob(now: u64) -> Context {
    Context::new("bob".to_string(), now, u128::MAX, 1)
}

fn busy_engine() -> Contract {
    let mut engine = Contract::new();
    let parent = match engine.add_task(
        "parent".to_string(),
        String::new(),
        Priority::Medium,
        DAY,
        150,
        None,
        None,
        Some(RecurrencePattern::new_daily()),
        &alice(1),
    ) {
        Response::Success(id) => id,
        Response::Error(e) => panic!("add_task failed: {:?}", e),
    };
    let child = engine.add_task(
        "child".to_string(),
        String::new(),
        Priority::Low,
        DAY,
        30,
        None,
        Some(parent.clone()),
        None,
        &alice(2),
    );
    assert_eq!(child, Response::Success("task-alice-2".to_string()));
    assert_eq!(engine.start_task(parent.clone(), 100, &alice(3)), Response::Success(parent.clone()));
    assert_eq!(engine.complete_task(parent.clone(), &alice(4)), Response::Success(parent));
    assert_eq!(
        engine.add_reward("tea".to_string(), String::new(), 2, &bob(5)),
        Response::Success("reward-bob-5".to_string())
    );
    assert_eq!(
        engine.add_time_slot(60, 120, SlotType::Break, RecurrencePattern::new_daily(), &bob(6)),
        Response::Success("time_slot-bob-6".to_string())
    );
    assert_eq!(
        engine.delete_time_slot("time_slot-bob-6".to_string(), &bob(7)),
        Response::Success("time_slot-bob-6".to_string())
    );
    engine
}

fn empty_snapshot() -> Snapshot {
    Contract::new().snapshot()
}

fn a_task(owner: &str, now: u64) -> Task {
    let ctx = Context::new(owner.to_string(), now, u128::MAX, 1);
    Task::new(
        "t".to_string(),
        String::new(),
        Priority::Low,
        now + DAY,
        30,
        Vec::new(),
        owner.to_string(),
        &ctx,
    )
    .unwrap()
}

fn a_reward(owner: &str, now: u64) -> Reward {
    let ctx = Context::new(owner.to_string(), now, u128::MAX, 1);
    Reward::new("r".to_string(), String::new(), 1, owner.to_string(), &ctx).unwrap()
}

#[test]
fn an_identifier_names_its_owner_before_its_stamp() {
    let id = |s: &str| s.to_string();
    assert!(id_names_owner("task", &id("task-alice-17"), &id("alice")));
    assert!(id_names_owner("task", &id("task-a-b-17"), &id("a-b")));
    assert!(id_names_owner("task", &id("task--17"), &id("")));
    assert!(id_names_owner("task", &id("task-alice-x"), &id("alice")));
    assert!(!id_names_owner("task", &id("task-alice-17"), &id("bob")));
    assert!(!id_names_owner("task", &id("task-a-b-17"), &id("a")));
    assert!(!id_names_owner("task", &id("task-alice-"), &id("alice")));
    assert!(!id_names_owner("task", &id("task-alice"), &id("alice")));
    assert!(!id_names_owner("task", &id("reward-alice-17"), &id("alice")));
    assert!(!id_names_owner("task", &id(""), &id("alice")));
    assert!(!id_names_owner("reward", &id("task-alice-17"), &id("alice")));
}

#[test]
fn a_snapshot_shows_what_the_engine_holds() {
    let snapshot = busy_engine().snapshot();
    let ids: Vec<&str> = snapshot.tasks.iter().map(|t| t.id.as_str()).collect();
    assert_eq!(ids, vec!["task-alice-1", "task-alice-2"]);
    assert_eq!(snapshot.task_owners, vec!["alice".to_string()]);
    assert_eq!(snapshot.habits.len(), 1);
    assert_eq!(snapshot.habits[0].streak, 1);
    assert_eq!(snapshot.habit_owners, vec!["alice".to_string()]);
    assert_eq!(
        snapshot.task_completions,
        vec![History { task_id: "task-alice-1".to_string(), times: vec![4] }]
    );
    assert_eq!(
        snapshot.reward_points,
        vec![Balance { owner: "alice".to_string(), points: 11 }]
    );
    assert_eq!(snapshot.rewards.len(), 1);
    assert_eq!(snapshot.reward_owners, vec!["bob".to_string()]);
    assert!(snapshot.time_slots.is_empty());
    assert_eq!(snapshot.time_slot_owners, vec!["bob".to_string()]);
}

#[test]
fn a_restored_engine_holds_what_the_snapshot_shows() {
    let engine = busy_engine();
    let restored = Contract::restore(engine.snapshot()).unwrap();
    assert_eq!(restored.snapshot(), engine.snapshot());
    assert_eq!(
        restored.get_tasks_by_owner("alice".to_string()),
        engine.get_tasks_by_owner("alice".to_string())
    );
    assert_eq!(
        restored.get_habits_by_owner("alice".to_string()),
        engine.get_habits_by_owner("alice".to_string())
    );
    assert_eq!(
        restored.get_rewards_by_owner("bob".to_string()),
        engine.get_rewards_by_owner("bob".to_string())
    );
    assert_eq!(restored.get_reward_points(&"alice".to_string()), Response::Success(11));
    assert_eq!(
        restored.indexed_ids(&"alice".to_string(), IndexType::Task),
        Some(vec!["task-alice-1".to_string(), "task-alice-2".to_string()])
    );
    // An owner whose last slot was deleted stays known to the index.
    assert_eq!(restored.indexed_ids(&"bob".to_string(), IndexType::TimeSlot), Some(Vec::new()));
    assert_eq!(restored.indexed_ids(&"alice".to_string(), IndexType::TimeSlot), None);
    assert_eq!(
        restored.get_task_completion_history("task-alice-1".to_string(), &alice(9)),
        Response::Success(vec![4])
    );
}

#[test]
fn a_restored_engine_goes_on_working() {
    let mut restored = Contract::restore(busy_engine().snapshot()).unwrap();
    assert_eq!(
        restored.start_task("task-alice-1".to_string(), 200, &alice(10)),
        Response::Success("task-alice-1".to_string())
    );
    assert_eq!(
        restored.complete_task("task-alice-1".to_string(), &alice(11)),
        Response::Success("task-alice-1".to_string())
    );
    assert_eq!(restored.get_reward_points(&"alice".to_string()), Response::Success(22));
    assert_eq!(
        restored.get_habit_streak("habit-alice-1".to_string(), &alice(12)),
        Response::Success(2)
    );
}

#[test]
fn an_empty_snapshot_gives_an_empty_engine() {
    let engine = Contract::restore(empty_snapshot()).unwrap();
    assert_eq!(engine.snapshot(), empty_snapshot());
    assert_eq!(engine.indexed_ids(&"alice".to_string(), IndexType::Task), None);
}

#[test]
fn a_snapshot_with_an_identifier_twice_is_refused() {
    let mut snapshot = empty_snapshot();
    snapshot.tasks = vec![a_task("alice", 1), a_task("alice", 2), a_task("alice", 1)];
    assert!(Contract::restore(snapshot).is_none());
    let mut snapshot = empty_snapshot();
    snapshot.rewards = vec![a_reward("bob", 3), a_reward("bob", 3)];
    assert!(Contract::restore(snapshot).is_none());
    let mut snapshot = empty_snapshot();
    snapshot.tasks = vec![a_task("alice", 1), a_task("alice", 2)];
    snapshot.rewards = vec![a_reward("bob", 1)];
    assert!(Contract::restore(snapshot).is_some());
}

#[test]
fn a_snapshot_with_an_identifier_of_another_owner_is_refused() {
    let mut stolen = a_task("alice", 1);
    stolen.owner_id = "bob".to_string();
    let mut snapshot = empty_snapshot();
    snapshot.tasks = vec![stolen];
    assert!(Contract::restore(snapshot).is_none());
    let mut renamed = a_reward("alice", 1);
    renamed.id = "reward-alice".to_string();
    let mut snapshot = empty_snapshot();
    snapshot.rewards = vec![renamed];
    assert!(Contract::restore(snapshot).is_none());
}

#[test]
fn a_snapshot_with_two_histories_or_balances_for_one_name_is_refused() {
    let mut snapshot = empty_snapshot();
    snapshot.task_completions = vec![
        History { task_id: "task-alice-1".to_string(), times: vec![1] },
        History { task_id: "task-alice-1".to_string(), times: vec![2] },
    ];
    assert!(Contract::restore(snapshot).is_none());
    let mut snapshot = empty_snapshot();
    snapshot.reward_points = vec![
        Balance { owner: "alice".to_string(), points: 1 },
        Balance { owner: "bob".to_string(), points: 2 },
        Balance { owner: "alice".to_string(), points: 3 },
    ];
    assert!(Contract::restore(snapshot).is_none());
}

#[test]
fn listed_owners_are_known_without_entities() {
    let mut snapshot = empty_snapshot();
    snapshot.task_owners = vec!["carol".to_string(), "carol".to_string()];
    snapshot.tasks = vec![a_task("alice", 1)];
    let engine = Contract::restore(snapshot).unwrap();
    assert_eq!(engine.indexed_ids(&"carol".to_string(), IndexType::Task), Some(Vec::new()));
    assert_eq!(
        engine.indexed_ids(&"alice".to_string(), IndexType::Task),
        Some(vec!["task-alice-1".to_string()])
    );
    assert_eq!(
        engine.snapshot().task_owners,
        vec!["carol".to_string(), "alice".to_string()]
    );
}

#[test]
fn a_streak_at_its_ceiling_stops_the_completion_after_the_history_is_written() {
    let mut snapshot = busy_engine().snapshot();
    snapshot.habits[0].streak = u32::MAX;
    snapshot.habits[0].last_completed = 4;
    let mut engine = Contract::restore(snapshot).unwrap();
    assert_eq!(
        engine.start_task("task-alice-1".to_string(), 200, &alice(10)),
        Response::Success("task-alice-1".to_string())
    );
    assert_eq!(
        engine.complete_task("task-alice-1".to_string(), &alice(11)),
        Response::Error(task_engine::errors::ContractError::Operation(
            "Streak would overflow".to_string()
        ))
    );
    // The subtask was credited again and the time entered; the habit, the
    // task and the reward of the task were not written.
    assert_eq!(engine.get_reward_points(&"alice".to_string()), Response::Success(12));
    assert_eq!(
        engine.get_task_completion_history("task-alice-1".to_string(), &alice(12)),
        Response::Success(vec![4, 11])
    );
    assert_eq!(
        engine.get_habit_streak("habit-alice-1".to_string(), &alice(12)),
        Response::Success(u32::MAX)
    );
    // Once the streak is broken it begins anew.
    assert_eq!(
        engine.complete_task("task-alice-1".to_string(), &alice(11 + 2 * DAY)),
        Response::Success("task-alice-1".to_string())
    );
    assert_eq!(
        engine.get_habit_streak("habit-alice-1".to_string(), &alice(12)),
        Response::Success(0)
    );
}

#[test]
fn a_balance_at_its_ceiling_stops_the_completion_before_the_task_is_written() {
    let mut snapshot = busy_engine().snapshot();
    snapshot.reward_points[0].points = u32::MAX - 5;
    let mut engine = Contract::restore(snapshot).unwrap();
    assert_eq!(
        engine.start_task("task-alice-1".to_string(), 200, &alice(10)),
        Response::Success("task-alice-1".to_string())
    );
    // The subtask brings 1 point, the task would bring 10.
    assert_eq!(
        engine.complete_task("task-alice-1".to_string(), &alice(11)),
        Response::Error(task_engine::errors::ContractError::Operation(
            "Points addition would overflow".to_string()
        ))
    );
    assert_eq!(engine.get_reward_points(&"alice".to_string()), Response::Success(u32::MAX - 4));
    assert_eq!(
        engine.get_habit_streak("habit-alice-1".to_string(), &alice(12)),
        Response::Success(2)
    );
    let tasks = match engine.get_tasks_by_owner("alice".to_string()) {
        Response::Success(tasks) => tasks,
        Response::Error(e) => panic!("no tasks: {:?}", e),
    };
    assert_eq!(tasks[0].state, task_engine::models::task::TaskState::InProgress);
}
