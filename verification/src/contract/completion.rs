//! Completing a task: its subtasks first, then the task, its habit and
//! the reward.

use vstd::prelude::*;
use crate::context::Context;
use crate::contract::{engine_wf, Contract, EngineView};
use crate::contract::tasks::{task_access_error, task_transition_error};
use crate::errors::{missing_error, ContractError, ErrorView};
use crate::ledger::{empty_account_error, overflow_error, Ledger};
use crate::models::habit::{
    compute_next_deadline, lemma_next_deadline_ahead, next_deadline, streak_continues, Habit,
    HabitView,
};
use crate::models::task::{transition_allowed, Task, TaskId, TaskState, TaskTimeSlot, TaskView};
use crate::models::traits::Ownable;
use crate::registry::{locate, records, rewrite, table_set, view_of};
use crate::response::{fails_with, names, PointsResponse, Response, TaskActionResponse};
use crate::store::Table;
use crate::text::{copy_ids, id_texts, same_text};

verus! {

/// The error for a subtask that is not there.
pub open spec fn subtask_missing(id: Seq<char>) -> ErrorView {
    missing_error("Subtask"@, "Subtask "@, id, " not found"@)
}

/// The error for a streak that cannot grow.
pub open spec fn streak_overflow_error() -> ErrorView {
    ErrorView::Operation("Streak would overflow"@)
}

/// The error for a next deadline beyond the largest time.
pub open spec fn deadline_overflow_error() -> ErrorView {
    ErrorView::Operation("Deadline is out of range"@)
}

/// Why points cannot be credited, if they cannot: the owner has no name,
/// or the balance would pass the largest `u32`.
pub open spec fn credit_error(balance: int, owner: Seq<char>, points: u32) -> Option<ErrorView> {
    if owner.len() == 0 {
        Some(empty_account_error())
    } else if balance + points > u32::MAX {
        Some(overflow_error())
    } else {
        None
    }
}

/// The points that the listed tasks bring `owner`: the reward of each
/// listed task that is there and is the owner's, as often as it is listed.
pub open spec fn subtask_credit(tasks: Table<Task>, ids: Seq<Seq<char>>, owner: Seq<char>) -> int
    decreases ids.len(),
{
    if ids.len() == 0 {
        0
    } else {
        subtask_credit(tasks, ids.drop_last(), owner) + (if tasks.contains_key(ids.last())
            && view_of(tasks, ids.last()).owner_id == owner {
            view_of(tasks, ids.last()).reward_points as int
        } else {
            0
        })
    }
}

/// A task, completed.
pub open spec fn completed(task: TaskView) -> TaskView {
    TaskView { state: TaskState::Completed, ..task }
}

/// The subtask with the number `n` as it stands when its turn comes:
/// completed already where the list names it before.
pub open spec fn subtask_at_turn(before: EngineView, ids: Seq<Seq<char>>, n: int) -> TaskView {
    let stored = view_of(before.tasks, ids[n]);
    if ids.take(n).contains(ids[n]) {
        completed(stored)
    } else {
        stored
    }
}

/// Why the subtask with the number `n` cannot be completed once those
/// before it are, if it cannot: it is not there, its state does not allow
/// it, or its reward cannot be credited to its owner.
pub open spec fn subtask_error(before: EngineView, ids: Seq<Seq<char>>, n: int, ctx: Context) -> Option<
    ErrorView,
> {
    if !before.tasks.contains_key(ids[n]) {
        Some(subtask_missing(ids[n]))
    } else {
        let subtask = subtask_at_turn(before, ids, n);
        if !transition_allowed(subtask, TaskState::Completed, ctx.now) {
            Some(task_transition_error(subtask.state, TaskState::Completed))
        } else {
            credit_error(
                before.reward_points.balance(subtask.owner_id) + subtask_credit(
                    before.tasks,
                    ids.take(n),
                    subtask.owner_id,
                ),
                subtask.owner_id,
                subtask.reward_points,
            )
        }
    }
}

/// The number of the first subtask from `from` on that cannot be
/// completed, or the length of the list where all can.
pub open spec fn subtasks_done(before: EngineView, ids: Seq<Seq<char>>, from: int, ctx: Context) -> int
    decreases ids.len() - from,
{
    if from < 0 || from >= ids.len() {
        ids.len() as int
    } else if subtask_error(before, ids, from, ctx) is Some {
        from
    } else {
        subtasks_done(before, ids, from + 1, ctx)
    }
}

/// The tasks and the ledger once the first `n` of the listed subtasks
/// are completed: each of them is completed and its reward credited to
/// its owner, and nothing else has changed.
pub open spec fn subtasks_applied(
    before: EngineView,
    tasks: Table<Task>,
    ledger: Ledger,
    ids: Seq<Seq<char>>,
    n: int,
) -> bool {
    &&& tasks.keys() == before.tasks.keys()
    &&& forall|k: Seq<char>|
        before.tasks.contains_key(k) ==> #[trigger] view_of(tasks, k) == (if ids.take(n).contains(
            k,
        ) {
            completed(view_of(before.tasks, k))
        } else {
            view_of(before.tasks, k)
        })
    &&& forall|owner: Seq<char>| #[trigger]
        ledger.balance(owner) == before.reward_points.balance(owner) + subtask_credit(
            before.tasks,
            ids.take(n),
            owner,
        )
}

/// The place of the first habit at or after `from` that recurs the task,
/// if there is one.
pub open spec fn first_habit_of(habits: Table<Habit>, task: Seq<char>, from: int) -> Option<int>
    decreases habits.values().len() - from,
{
    if from < 0 || from >= habits.values().len() {
        None
    } else if habits.values()[from]@.task_id == task {
        Some(from)
    } else {
        first_habit_of(habits, task, from + 1)
    }
}

/// How far `complete_task` gets and what it writes.
pub struct Completion {
    /// Why it stops, if it does.
    pub error: Option<ErrorView>,
    /// How many of the listed subtasks are completed.
    pub subtasks_done: int,
    /// Whether the time of completion is entered in the task's history.
    pub log_written: bool,
    /// The habit of the task as it is written, if it is.
    pub habit: Option<HabitView>,
    /// The task as it is written, if it is.
    pub task: Option<TaskView>,
}

/// The last step of `complete_task`: the reward of the task is credited
/// to its owner, and with that the task is written.
pub open spec fn completion_end(
    before: EngineView,
    id: Seq<char>,
    habit: Option<HabitView>,
    task: TaskView,
) -> Completion {
    let stored = view_of(before.tasks, id);
    let balance = before.reward_points.balance(stored.owner_id) + subtask_credit(
        before.tasks,
        stored.subtask_ids,
        stored.owner_id,
    );
    match credit_error(balance, stored.owner_id, stored.reward_points) {
        Some(e) => Completion {
            error: Some(e),
            subtasks_done: stored.subtask_ids.len() as int,
            log_written: true,
            habit,
            task: None,
        },
        None => Completion {
            error: None,
            subtasks_done: stored.subtask_ids.len() as int,
            log_written: true,
            habit,
            task: Some(task),
        },
    }
}

/// The habit after a completion at `now`: its streak one longer where the
/// completion continues it, and begun anew where not.
pub open spec fn habit_after_completion(habit: HabitView, now: u64) -> HabitView {
    HabitView {
        streak: if streak_continues(habit.last_completed, habit.recurrence, now) {
            (habit.streak + 1) as u32
        } else {
            0
        },
        last_completed: now,
        ..habit
    }
}

/// How far `complete_task` gets on a task of the caller. The listed
/// subtasks come first, in their order, and the first that cannot be
/// completed stops everything. Then the task must be allowed to pass
/// into `Completed`; the time is entered in its history; its habit, the
/// first in the table that recurs it, has its streak counted and gives
/// the next deadline; and the reward is credited.
pub open spec fn completion(before: EngineView, id: Seq<char>, ctx: Context) -> Completion {
    let stored = view_of(before.tasks, id);
    let ids = stored.subtask_ids;
    let done = subtasks_done(before, ids, 0, ctx);
    if done < ids.len() {
        Completion {
            error: subtask_error(before, ids, done, ctx),
            subtasks_done: done,
            log_written: false,
            habit: None,
            task: None,
        }
    } else if !transition_allowed(stored, TaskState::Completed, ctx.now) {
        Completion {
            error: Some(task_transition_error(stored.state, TaskState::Completed)),
            subtasks_done: done,
            log_written: false,
            habit: None,
            task: None,
        }
    } else {
        match first_habit_of(before.habits, id, 0) {
            None => completion_end(
                before,
                id,
                None,
                TaskView { state: TaskState::Completed, time_slots: Seq::empty(), ..stored },
            ),
            Some(i) => {
                let habit = before.habits.values()[i]@;
                if streak_continues(habit.last_completed, habit.recurrence, ctx.now) && habit.streak
                    == u32::MAX {
                    Completion {
                        error: Some(streak_overflow_error()),
                        subtasks_done: done,
                        log_written: true,
                        habit: None,
                        task: None,
                    }
                } else if next_deadline(habit.recurrence, ctx.now) > u64::MAX {
                    Completion {
                        error: Some(deadline_overflow_error()),
                        subtasks_done: done,
                        log_written: true,
                        habit: None,
                        task: None,
                    }
                } else {
                    completion_end(
                        before,
                        id,
                        Some(habit_after_completion(habit, ctx.now)),
                        TaskView {
                            state: TaskState::Created,
                            deadline: next_deadline(habit.recurrence, ctx.now) as u64,
                            time_slots: Seq::empty(),
                            ..stored
                        },
                    )
                }
            },
        }
    }
}

/// What entering a time in a task's history makes of the histories: the
/// time stands after the times that the task had, and the other tasks
/// have what they had.
pub open spec fn history_extended(
    before: Table<Vec<u64>>,
    after: Table<Vec<u64>>,
    id: Seq<char>,
    now: u64,
) -> bool {
    &&& after.wf()
    &&& after.contains_key(id)
    &&& after.value_of(id)@ == (if before.contains_key(id) {
        before.value_of(id)@
    } else {
        Seq::empty()
    }).push(now)
    &&& forall|k: Seq<char>| k != id ==> after.contains_key(k) == before.contains_key(k)
    &&& forall|k: Seq<char>|
        k != id && before.contains_key(k) ==> #[trigger] after.value_of(k) == before.value_of(k)
}

/// What `complete_task` makes of the engine when it gets as far as
/// `outcome` says. What is written before it stops stays written.
pub open spec fn completion_effect(
    before: EngineView,
    after: EngineView,
    id: Seq<char>,
    ctx: Context,
    outcome: Completion,
) -> bool {
    let stored = view_of(before.tasks, id);
    let processed = stored.subtask_ids.take(outcome.subtasks_done);
    &&& after.tasks.keys() == before.tasks.keys()
    &&& forall|k: Seq<char>|
        before.tasks.contains_key(k) ==> #[trigger] view_of(after.tasks, k) == (if outcome.task
            is Some && k == id {
            outcome.task->0
        } else if processed.contains(k) {
            completed(view_of(before.tasks, k))
        } else {
            view_of(before.tasks, k)
        })
    &&& forall|owner: Seq<char>| #[trigger]
        after.reward_points.balance(owner) == before.reward_points.balance(owner) + subtask_credit(
            before.tasks,
            processed,
            owner,
        ) + (if outcome.task is Some && owner == stored.owner_id {
            stored.reward_points as int
        } else {
            0
        })
    &&& if outcome.log_written {
        history_extended(before.task_completions, after.task_completions, id, ctx.now)
    } else {
        after.task_completions == before.task_completions
    }
    &&& match outcome.habit {
        Some(habit) => table_set(before.habits, after.habits, habit.id, habit),
        None => after.habits == before.habits,
    }
    &&& after == (EngineView {
        tasks: after.tasks,
        reward_points: after.reward_points,
        task_completions: after.task_completions,
        habits: after.habits,
        ..before
    })
}

/// The subtasks before the first that cannot be completed can be, and
/// that one cannot.
pub proof fn lemma_subtasks_done(before: EngineView, ids: Seq<Seq<char>>, from: int, ctx: Context)
    requires
        0 <= from <= ids.len(),
    ensures
        from <= subtasks_done(before, ids, from, ctx) <= ids.len(),
        subtasks_done(before, ids, from, ctx) < ids.len() ==> subtask_error(
            before,
            ids,
            subtasks_done(before, ids, from, ctx),
            ctx,
        ) is Some,
        forall|k: int|
            from <= k < subtasks_done(before, ids, from, ctx) ==> #[trigger] subtask_error(
                before,
                ids,
                k,
                ctx,
            ) is None,
    decreases ids.len() - from,
{
    if from < ids.len() && subtask_error(before, ids, from, ctx) is None {
        lemma_subtasks_done(before, ids, from + 1, ctx);
    }
}

/// The habit that is found recurs the task, and no habit before it does.
pub proof fn lemma_first_habit_of(habits: Table<Habit>, task: Seq<char>, from: int)
    requires
        0 <= from <= habits.values().len(),
    ensures
        match first_habit_of(habits, task, from) {
            Some(i) => from <= i < habits.values().len() && habits.values()[i]@.task_id == task
                && forall|k: int| from <= k < i ==> (#[trigger] habits.values()[k])@.task_id != task,
            None => forall|k: int|
                from <= k < habits.values().len() ==> (#[trigger] habits.values()[k])@.task_id
                    != task,
        },
    decreases habits.values().len() - from,
{
    if from < habits.values().len() && habits.values()[from]@.task_id != task {
        lemma_first_habit_of(habits, task, from + 1);
    }
}

/// A completed task that a habit recurs begins anew: it is in the state
/// `Created` again, without slots, and due when its pattern says; and its
/// habit has the completion counted.
pub proof fn lemma_recurring_task_begins_anew(
    before: EngineView,
    after: EngineView,
    id: Seq<char>,
    ctx: Context,
)
    requires
        before.tasks.contains_key(id),
        completion(before, id, ctx).error is None,
        completion_effect(before, after, id, ctx, completion(before, id, ctx)),
        first_habit_of(before.habits, id, 0) is Some,
    ensures
        ({
            let habit = before.habits.values()[first_habit_of(before.habits, id, 0)->0]@;
            let task = view_of(after.tasks, id);
            &&& task.state == TaskState::Created
            &&& task.deadline == next_deadline(habit.recurrence, ctx.now)
            &&& task.time_slots.len() == 0
            &&& task.id == view_of(before.tasks, id).id
            &&& view_of(after.habits, habit.id) == habit_after_completion(habit, ctx.now)
        }),
{
    lemma_subtasks_done(before, view_of(before.tasks, id).subtask_ids, 0, ctx);
    lemma_first_habit_of(before.habits, id, 0);
    let outcome = completion(before, id, ctx);
    let habit = before.habits.values()[first_habit_of(before.habits, id, 0)->0]@;
    lemma_next_deadline_ahead(habit.recurrence, ctx.now);
    assert(outcome.habit == Some(habit_after_completion(habit, ctx.now)));
    assert(outcome.task is Some);
    assert(view_of(after.tasks, id) == outcome.task->0);
}

/// A completed task that no habit recurs is in the state `Completed`,
/// without slots.
pub proof fn lemma_single_task_is_completed(
    before: EngineView,
    after: EngineView,
    id: Seq<char>,
    ctx: Context,
)
    requires
        before.tasks.contains_key(id),
        completion(before, id, ctx).error is None,
        completion_effect(before, after, id, ctx, completion(before, id, ctx)),
        first_habit_of(before.habits, id, 0) is None,
    ensures
        view_of(after.tasks, id).state == TaskState::Completed,
        view_of(after.tasks, id).time_slots.len() == 0,
        after.habits == before.habits,
{
    lemma_subtasks_done(before, view_of(before.tasks, id).subtask_ids, 0, ctx);
}

/// A completion that goes through credits the reward of the task and of
/// each listed subtask, and enters the time in the task's history.
pub proof fn lemma_completion_credits(
    before: EngineView,
    after: EngineView,
    id: Seq<char>,
    ctx: Context,
)
    requires
        before.tasks.contains_key(id),
        completion(before, id, ctx).error is None,
        completion_effect(before, after, id, ctx, completion(before, id, ctx)),
    ensures
        ({
            let task = view_of(before.tasks, id);
            &&& after.reward_points.balance(task.owner_id) == before.reward_points.balance(
                task.owner_id,
            ) + subtask_credit(before.tasks, task.subtask_ids, task.owner_id) + task.reward_points
            &&& history_extended(before.task_completions, after.task_completions, id, ctx.now)
        }),
{
    let task = view_of(before.tasks, id);
    let outcome = completion(before, id, ctx);
    lemma_subtasks_done(before, task.subtask_ids, 0, ctx);
    assert(outcome.subtasks_done == task.subtask_ids.len());
    assert(task.subtask_ids.take(outcome.subtasks_done) =~= task.subtask_ids);
}

impl Contract {
    /// Credits points to an account and hands back the new balance,
    /// unless the account has no name or the balance would pass the
    /// largest `u32`; the ledger is then left as it was.
    fn add_reward_points(&mut self, account_id: &String, points: u32) -> (r: PointsResponse)
        requires
            old(self).wf(),
        ensures
            final(self).wf(),
            final(self)@ == (EngineView {
                reward_points: final(self)@.reward_points,
                ..old(self)@
            }),
            forall|other: Seq<char>|
                other != account_id@ ==> #[trigger] final(self)@.reward_points.balance(other)
                    == old(self)@.reward_points.balance(other),
            match credit_error(
                old(self)@.reward_points.balance(account_id@) as int,
                account_id@,
                points,
            ) {
                Some(e) => fails_with(r, e) && final(self)@.reward_points.balance(account_id@)
                    == old(self)@.reward_points.balance(account_id@),
                None => r == Response::<u32, ContractError>::Success(
                    (old(self)@.reward_points.balance(account_id@) + points) as u32,
                ) && final(self)@.reward_points.balance(account_id@)
                    == old(self)@.reward_points.balance(account_id@) + points,
            },
    {
        self.reward_points.add_points(account_id, points as i64)
    }

    /// Completes the listed subtasks in their order, each with its reward
    /// credited to its owner, up to the first that cannot be completed.
    fn complete_subtasks(&mut self, ids: &Vec<String>, ctx: &Context) -> (stopped: Option<
        ContractError,
    >)
        requires
            old(self).wf(),
        ensures
            final(self).wf(),
            final(self)@ == (EngineView {
                tasks: final(self)@.tasks,
                reward_points: final(self)@.reward_points,
                ..old(self)@
            }),
            subtasks_applied(
                old(self)@,
                final(self)@.tasks,
                final(self)@.reward_points,
                id_texts(ids@),
                subtasks_done(old(self)@, id_texts(ids@), 0, *ctx),
            ),
            match stopped {
                Some(e) => subtasks_done(old(self)@, id_texts(ids@), 0, *ctx) < ids@.len()
                    && subtask_error(
                    old(self)@,
                    id_texts(ids@),
                    subtasks_done(old(self)@, id_texts(ids@), 0, *ctx),
                    *ctx,
                ) == Some(e@),
                None => subtasks_done(old(self)@, id_texts(ids@), 0, *ctx) == ids@.len(),
            },
    {
        let ghost start = self@;
        let ghost listed = id_texts(ids@);
        let mut n: usize = 0;
        proof {
            assert(listed.take(0) =~= Seq::<Seq<char>>::empty());
        }
        while n < ids.len()
            invariant
                n <= ids.len(),
                listed == id_texts(ids@),
                start == old(self)@,
                engine_wf(start),
                self.wf(),
                self@ == (EngineView {
                    tasks: self@.tasks,
                    reward_points: self@.reward_points,
                    ..start
                }),
                subtasks_applied(start, self@.tasks, self@.reward_points, listed, n as int),
                subtasks_done(start, listed, 0, *ctx) == subtasks_done(start, listed, n as int, *ctx),
            decreases ids.len() - n,
        {
            let subtask_id = &ids[n];
            let ghost turn = subtask_at_turn(start, listed, n as int);
            proof {
                assert(listed[n as int] == subtask_id@);
                assert(listed.take(n + 1) =~= listed.take(n as int).push(subtask_id@));
                assert(listed.take(n + 1).drop_last() =~= listed.take(n as int));
                assert(listed.take(n + 1).last() == subtask_id@);
            }
            let place = match locate(&self.tasks, &self.tasks_per_owner, subtask_id) {
                Some(place) => place,
                None => {
                    return Some(
                        ContractError::missing(
                            "Subtask",
                            "Subtask ",
                            subtask_id.as_str(),
                            " not found",
                        ),
                    );
                },
            };
            let mut subtask = self.tasks.value_at(place).clone();
            assert(subtask@ == view_of(self.tasks, subtask_id@));
            assert(subtask@ == turn);
            if let Err(e) = subtask.transition_to(TaskState::Completed, ctx) {
                return Some(ContractError::from_task(e));
            }
            let ghost mid = self@;
            match self.add_reward_points(subtask.get_owner_id(), subtask.reward_points) {
                Response::Success(_) => {},
                Response::Error(e) => {
                    return Some(e);
                },
            }
            let ghost credited = self.reward_points;
            let ghost tasks_before = self.tasks;
            rewrite(&mut self.tasks, &self.tasks_per_owner, place, subtask);
            proof {
                assert forall|k: Seq<char>| start.tasks.contains_key(k) implies #[trigger] view_of(
                    self.tasks,
                    k,
                ) == (if listed.take(n + 1).contains(k) {
                    completed(view_of(start.tasks, k))
                } else {
                    view_of(start.tasks, k)
                }) by {
                    if k == subtask_id@ {
                        assert(listed.take(n + 1)[n as int] == k);
                    } else {
                        assert(tasks_before.contains_key(k));
                        assert(view_of(self.tasks, k) == view_of(tasks_before, k));
                        let longer = listed.take(n + 1);
                        let shorter = listed.take(n as int);
                        if longer.contains(k) {
                            let j = choose|j: int| 0 <= j < longer.len() && longer[j] == k;
                            assert(shorter[j] == k);
                        }
                        if shorter.contains(k) {
                            let j = choose|j: int| 0 <= j < shorter.len() && shorter[j] == k;
                            assert(longer[j] == k);
                        }
                    }
                }
                assert forall|owner: Seq<char>| #[trigger]
                    self.reward_points.balance(owner) == start.reward_points.balance(owner)
                        + subtask_credit(start.tasks, listed.take(n + 1), owner) by {
                    assert(mid.reward_points.balance(owner) == start.reward_points.balance(owner)
                        + subtask_credit(start.tasks, listed.take(n as int), owner));
                }
            }
            n += 1;
        }
        proof {
            assert(listed.take(n as int) =~= listed);
        }
        None
    }

    /// Enters a time of completion in the history of a task.
    fn record_completion(&mut self, task_id: &String, now: u64)
        requires
            old(self).wf(),
        ensures
            final(self).wf(),
            history_extended(
                old(self)@.task_completions,
                final(self)@.task_completions,
                task_id@,
                now,
            ),
            final(self)@ == (EngineView {
                task_completions: final(self)@.task_completions,
                ..old(self)@
            }),
    {
        let mut completions: Vec<u64> = match self.task_completions.get(task_id) {
            Some(times) => {
                let copy = times.clone();
                assert(copy@ =~= times@);
                copy
            },
            None => Vec::new(),
        };
        completions.push(now);
        self.task_completions.insert(task_id.clone(), completions);
    }

    /// The place of the first habit that recurs the task, if there is one.
    fn find_habit(&self, task_id: &String) -> (place: Option<usize>)
        requires
            self.wf(),
        ensures
            match place {
                Some(i) => first_habit_of(self@.habits, task_id@, 0) == Some(i as int) && i
                    < self@.habits.values().len(),
                None => first_habit_of(self@.habits, task_id@, 0) is None,
            },
    {
        let mut i: usize = 0;
        while i < self.habits.len()
            invariant
                self.wf(),
                i <= self.habits.values().len(),
                first_habit_of(self@.habits, task_id@, 0) == first_habit_of(
                    self@.habits,
                    task_id@,
                    i as int,
                ),
            decreases self.habits.values().len() - i,
        {
            if same_text(&self.habits.value_at(i).task_id, task_id) {
                return Some(i);
            }
            i += 1;
        }
        None
    }

    /// Completes a task of the caller: first the subtasks that it lists,
    /// then the task itself, which begins anew if a habit recurs it. Each
    /// completed task has its reward credited to its owner. What is
    /// written before a step fails stays written.
    pub fn complete_task(&mut self, task_id: TaskId, ctx: &Context) -> (r: TaskActionResponse)
        requires
            old(self).wf(),
        ensures
            final(self).wf(),
            match task_access_error(old(self)@, task_id@, *ctx) {
                Some(e) => fails_with(r, e) && *final(self) == *old(self),
                None => {
                    let outcome = completion(old(self)@, task_id@, *ctx);
                    &&& completion_effect(old(self)@, final(self)@, task_id@, *ctx, outcome)
                    &&& match outcome.error {
                        Some(e) => fails_with(r, e),
                        None => names(r, task_id@),
                    }
                },
            },
    {
        let place = match locate(&self.tasks, &self.tasks_per_owner, &task_id) {
            Some(place) => place,
            None => {
                return Response::Error(
                    ContractError::missing("Task", "Task ", task_id.as_str(), " not found"),
                );
            },
        };
        let mut task = self.tasks.value_at(place).clone();
        if let Err(e) = task.validate_ownership(ctx) {
            return Response::Error(ContractError::AccessError(e));
        }
        let ghost start = self@;
        let ghost stored = task@;
        let ghost listed = stored.subtask_ids;
        let subtask_ids = copy_ids(&task.subtask_ids);
        if let Some(e) = self.complete_subtasks(&subtask_ids, ctx) {
            return Response::Error(e);
        }
        proof {
            assert(listed.take(listed.len() as int) =~= listed);
        }
        if let Err(e) = task.transition_to(TaskState::Completed, ctx) {
            return Response::Error(ContractError::from_task(e));
        }
        task.time_slots.clear();
        assert(task.time_slots@ =~= Seq::<TaskTimeSlot>::empty());
        self.record_completion(&task_id, ctx.now);
        let ghost mut written_habit: Option<HabitView> = None;
        if let Some(habit_place) = self.find_habit(&task_id) {
            let mut habit = self.habits.value_at(habit_place).clone();
            if habit.verify_streak_continuity(ctx) {
                if habit.streak == u32::MAX {
                    return Response::Error(
                        ContractError::Operation("Streak would overflow".to_owned()),
                    );
                }
                let _ = habit.increment_streak(ctx);
            } else {
                habit.reset_streak(ctx);
            }
            let new_deadline = match compute_next_deadline(&habit.recurrence, ctx.now) {
                Some(deadline) => deadline,
                None => {
                    return Response::Error(
                        ContractError::Operation("Deadline is out of range".to_owned()),
                    );
                },
            };
            task.state = TaskState::Created;
            task.deadline = new_deadline;
            proof {
                written_habit = Some(habit@);
                let entry = records(self.habits.values())[habit_place as int];
                assert(entry.id == self.habits.keys()[habit_place as int]);
            }
            rewrite(&mut self.habits, &self.habits_per_owner, habit_place, habit);
        }
        let ghost before_credit = self@;
        match self.add_reward_points(task.get_owner_id(), task.reward_points) {
            Response::Success(_) => {},
            Response::Error(e) => {
                proof {
                    let outcome = completion(start, task_id@, *ctx);
                    assert(outcome.habit == written_habit);
                    assert(outcome.task is None);
                }
                return Response::Error(e);
            },
        }
        let ghost tasks_before = self.tasks;
        proof {
            assert(view_of(self.tasks, task_id@).owner_id == stored.owner_id);
        }
        rewrite(&mut self.tasks, &self.tasks_per_owner, place, task);
        proof {
            let outcome = completion(start, task_id@, *ctx);
            assert(outcome.habit == written_habit);
            assert(outcome.task == Some(task@));
            assert forall|k: Seq<char>| start.tasks.contains_key(k) implies #[trigger] view_of(
                self.tasks,
                k,
            ) == (if outcome.task is Some && k == task_id@ {
                outcome.task->0
            } else if listed.contains(k) {
                completed(view_of(start.tasks, k))
            } else {
                view_of(start.tasks, k)
            }) by {
                if k != task_id@ {
                    assert(tasks_before.contains_key(k));
                    assert(view_of(self.tasks, k) == view_of(tasks_before, k));
                }
            }
        }
        Response::Success(task_id)
    }
}

} // verus!
