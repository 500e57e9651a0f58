//! Single tasks in the engine: listing, updating, starting, splitting
//! and marking them overdue, and what is asked of habits and histories.

use vstd::prelude::*;
use crate::context::Context;
use crate::contract::{not_owner, Contract, EngineView};
use crate::contract::completion::completed;
use crate::errors::{missing_error, task_error_view, validation_error, ContractError, ErrorView};
use crate::models::config::MINUTE_NANOS;
use crate::models::habit::{Habit, HabitId, HabitView};
use crate::models::task::{
    normalized, reward_points_for, task_verdict, transition_allowed, Priority, Task, TaskError,
    TaskId, TaskState, TaskStateError, TaskTimeSlot, TaskView,
};
use crate::models::traits::Ownable;
use crate::registry::{locate, owned_entities, owned_views, rewrite, table_set, view_of, views};
use crate::response::{
    fails_with, names, HabitListResponse, Response, TaskActionResponse, TaskListResponse,
};
use crate::schedule::{make_slots, slots_between, sort_times, sorted_times};

verus! {

/// The error for a task that is not there.
pub open spec fn task_missing(id: Seq<char>) -> ErrorView {
    missing_error("Task"@, "Task "@, id, " not found"@)
}

/// The error for a habit that is not there.
pub open spec fn habit_missing(id: Seq<char>) -> ErrorView {
    missing_error("Habit"@, "Habit "@, id, " not found"@)
}

/// The error for a transition that a task's state does not allow.
pub open spec fn task_transition_error(from: TaskState, to: TaskState) -> ErrorView {
    task_error_view(TaskError::State(TaskStateError::InvalidTransition { from, to }))
}

/// The tasks that the index holds for `owner`.
pub open spec fn owner_tasks(v: EngineView, owner: Seq<char>) -> Seq<TaskView> {
    owned_views(v.tasks, v.tasks_per_owner, owner)
}

/// The tasks that the index holds for `owner` and that are completed, or
/// those that are not.
pub open spec fn owner_tasks_by_completion(v: EngineView, owner: Seq<char>, completed: bool) -> Seq<
    TaskView,
> {
    owner_tasks(v, owner).filter(
        |task: TaskView| (task.state == TaskState::Completed) == completed,
    )
}

/// The habits that the index holds for `owner`.
pub open spec fn owner_habits(v: EngineView, owner: Seq<char>) -> Seq<HabitView> {
    owned_views(v.habits, v.habits_per_owner, owner)
}

/// The times at which a task was completed, in their order.
pub open spec fn completions_of(v: EngineView, id: Seq<char>) -> Seq<u64> {
    if v.task_completions.contains_key(id) {
        v.task_completions.value_of(id)@
    } else {
        Seq::empty()
    }
}

/// The slots of an optional list.
pub open spec fn given_slots(time_slots: Option<Vec<TaskTimeSlot>>) -> Option<Seq<TaskTimeSlot>> {
    match time_slots {
        Some(slots) => Some(slots@),
        None => None,
    }
}

/// The task under `id` with its fields overwritten and its reward
/// computed anew; without new slots it keeps the slots that it has.
pub open spec fn edited_task(
    before: EngineView,
    id: Seq<char>,
    title: Seq<char>,
    description: Seq<char>,
    priority: Priority,
    deadline: u64,
    estimated_time: u32,
    time_slots: Option<Seq<TaskTimeSlot>>,
) -> TaskView {
    let stored = view_of(before.tasks, id);
    TaskView {
        title,
        description,
        priority,
        deadline,
        estimated_time,
        time_slots: match time_slots {
            Some(slots) => slots,
            None => stored.time_slots,
        },
        reward_points: reward_points_for(estimated_time, priority) as u32,
        ..stored
    }
}

/// Why an operation on the task under `id` is refused at the door, if it
/// is: the task is not there, or the caller does not own it.
pub open spec fn task_access_error(before: EngineView, id: Seq<char>, ctx: Context) -> Option<
    ErrorView,
> {
    if !before.tasks.contains_key(id) {
        Some(task_missing(id))
    } else if view_of(before.tasks, id).owner_id != ctx.caller@ {
        Some(not_owner())
    } else {
        None
    }
}

/// What an operation makes of the engine that writes `task` in the place
/// of the task under `id` and nothing else.
pub open spec fn task_written(
    before: EngineView,
    after: EngineView,
    id: Seq<char>,
    task: TaskView,
) -> bool {
    &&& table_set(before.tasks, after.tasks, id, task)
    &&& after == (EngineView { tasks: after.tasks, ..before })
}

/// Why `update_task` fails, if it does: the task is not there, the caller
/// does not own it, or the edited task breaks a rule.
pub open spec fn update_task_error(
    before: EngineView,
    id: Seq<char>,
    edited: TaskView,
    ctx: Context,
) -> Option<ErrorView> {
    match task_access_error(before, id, ctx) {
        Some(e) => Some(e),
        None => match task_verdict(edited, ctx) {
            Err(e) => Some(task_error_view(e)),
            Ok(_) => None,
        },
    }
}

/// The error for a task that is said to be overdue before its deadline.
pub open spec fn too_early_error() -> ErrorView {
    validation_error("Task"@, "Cannot mark as overdue before deadline"@)
}

/// Why `mark_task_overdue` fails, if it does: the task is not there, the
/// caller does not own it, the deadline has not passed, or the task is
/// neither created nor in progress.
pub open spec fn mark_task_overdue_error(before: EngineView, id: Seq<char>, ctx: Context) -> Option<
    ErrorView,
> {
    match task_access_error(before, id, ctx) {
        Some(e) => Some(e),
        None => {
            let stored = view_of(before.tasks, id);
            if ctx.now <= stored.deadline {
                Some(too_early_error())
            } else if !transition_allowed(stored, TaskState::Overdue, ctx.now) {
                Some(task_transition_error(stored.state, TaskState::Overdue))
            } else {
                None
            }
        },
    }
}

/// The task under `id`, overdue and without slots.
pub open spec fn overdue_task(before: EngineView, id: Seq<char>) -> TaskView {
    TaskView {
        state: TaskState::Overdue,
        time_slots: Seq::empty(),
        ..view_of(before.tasks, id)
    }
}

/// The error for a start so late that the end of the work is beyond the
/// largest time.
pub open spec fn out_of_range_error() -> ErrorView {
    ErrorView::Operation("Scheduled time is out of range"@)
}

/// The end of work of `estimated_time` minutes that starts at `start`.
pub open spec fn scheduled_end(start: u64, estimated_time: u32) -> int {
    start + estimated_time * MINUTE_NANOS
}

/// The task under `id` with one more slot, for its estimated time from
/// `start` on.
pub open spec fn scheduled_task(before: EngineView, id: Seq<char>, start: u64) -> TaskView {
    let stored = view_of(before.tasks, id);
    TaskView {
        time_slots: stored.time_slots.push(
            TaskTimeSlot {
                start_time: start,
                end_time: scheduled_end(start, stored.estimated_time) as u64,
            },
        ),
        ..stored
    }
}

/// Why `start_task` fails, if it does: the task is not there, the caller
/// does not own it, the work would end beyond the largest time, the task
/// with its new slot breaks a rule, or the task is not in the state
/// `Created`.
pub open spec fn start_task_error(before: EngineView, id: Seq<char>, start: u64, ctx: Context) -> Option<
    ErrorView,
> {
    match task_access_error(before, id, ctx) {
        Some(e) => Some(e),
        None => {
            let stored = view_of(before.tasks, id);
            if scheduled_end(start, stored.estimated_time) > u64::MAX {
                Some(out_of_range_error())
            } else {
                match task_verdict(scheduled_task(before, id, start), ctx) {
                    Err(e) => Some(task_error_view(e)),
                    Ok(_) => if !transition_allowed(stored, TaskState::InProgress, ctx.now) {
                        Some(task_transition_error(stored.state, TaskState::InProgress))
                    } else {
                        None
                    },
                }
            }
        },
    }
}

/// The task under `id` as `start_task` leaves it: in progress, with its
/// new slot and its texts trimmed.
pub open spec fn started_task(before: EngineView, id: Seq<char>, start: u64) -> TaskView {
    TaskView { state: TaskState::InProgress, ..normalized(scheduled_task(before, id, start)) }
}

/// The error for fewer than two points at which to split.
pub open spec fn too_few_points_error() -> ErrorView {
    validation_error("Task"@, "Need at least two split points to split a task"@)
}

/// The task under `id` with the slots between the given times, taken in
/// rising order, in place of its own.
pub open spec fn split_task_view(before: EngineView, id: Seq<char>, times: Seq<u64>) -> TaskView {
    TaskView { time_slots: slots_between(sorted_times(times)), ..view_of(before.tasks, id) }
}

/// Why `split_task` fails, if it does: fewer than two times are given,
/// the task is not there, the caller does not own it, or the task with
/// its new slots breaks a rule.
pub open spec fn split_task_error(
    before: EngineView,
    id: Seq<char>,
    times: Seq<u64>,
    ctx: Context,
) -> Option<ErrorView> {
    if times.len() < 2 {
        Some(too_few_points_error())
    } else {
        match task_access_error(before, id, ctx) {
            Some(e) => Some(e),
            None => match task_verdict(split_task_view(before, id, times), ctx) {
                Err(e) => Some(task_error_view(e)),
                Ok(_) => None,
            },
        }
    }
}

/// The task under `id` as `split_task` leaves it: with its new slots and
/// its texts trimmed, and in progress if it was only created.
pub open spec fn split_result(before: EngineView, id: Seq<char>, times: Seq<u64>) -> TaskView {
    let split = normalized(split_task_view(before, id, times));
    TaskView {
        state: if split.state == TaskState::Created {
            TaskState::InProgress
        } else {
            split.state
        },
        ..split
    }
}

/// The tasks of a list that are completed, or those that are not.
pub fn select_tasks(all: &Vec<Task>, completed: bool) -> (chosen: Vec<Task>)
    ensures
        views(chosen@) == views(all@).filter(
            |task: TaskView| (task.state == TaskState::Completed) == completed,
        ),
{
    let ghost wanted = |task: TaskView| (task.state == TaskState::Completed) == completed;
    let mut chosen: Vec<Task> = Vec::new();
    let mut k: usize = 0;
    proof {
        reveal(Seq::filter);
        assert(views(all@).take(0) =~= Seq::<TaskView>::empty());
        assert(views(chosen@) =~= Seq::<TaskView>::empty());
    }
    while k < all.len()
        invariant
            k <= all.len(),
            wanted == (|task: TaskView| (task.state == TaskState::Completed) == completed),
            views(chosen@) == views(all@).take(k as int).filter(wanted),
        decreases all.len() - k,
    {
        proof {
            reveal(Seq::filter);
            assert(views(all@).take(k + 1).drop_last() =~= views(all@).take(k as int));
            assert(views(all@).take(k + 1).last() == all@[k as int]@);
        }
        if (all[k].state == TaskState::Completed) == completed {
            let copy = all[k].clone();
            let ghost earlier = chosen@;
            chosen.push(copy);
            assert(views(chosen@) =~= views(earlier).push(all@[k as int]@));
        }
        k += 1;
    }
    assert(views(all@).take(k as int) =~= views(all@));
    chosen
}

impl Contract {
    /// The tasks of `owner_id`, in the order in which they were made, which a
    /// deletion leaves as it is for the rest.
    pub fn get_tasks_by_owner(&self, owner_id: String) -> (r: TaskListResponse)
        requires
            self.wf(),
        ensures
            if !self@.tasks_per_owner.has_owner(owner_id@) || owner_tasks(self@, owner_id@).len()
                == 0 {
                fails_with(r, missing_error("Task"@, "No tasks found for "@, owner_id@, ""@))
            } else {
                r matches Response::Success(list) && views(list@) == owner_tasks(self@, owner_id@)
            },
    {
        let all = match owned_entities(&self.tasks, &self.tasks_per_owner, &owner_id) {
            Some(all) => all,
            None => {
                return Response::Error(
                    ContractError::missing("Task", "No tasks found for ", owner_id.as_str(), ""),
                );
            },
        };
        assert(views(all@) =~= owner_tasks(self@, owner_id@));
        if all.len() == 0 {
            return Response::Error(
                ContractError::missing("Task", "No tasks found for ", owner_id.as_str(), ""),
            );
        }
        Response::Success(all)
    }

    /// The tasks of `owner_id` that are not completed, in the order in which they were made, which a
    /// deletion leaves as it is for the rest.
    pub fn get_incomplete_tasks(&self, owner_id: String) -> (r: TaskListResponse)
        requires
            self.wf(),
        ensures
            if !self@.tasks_per_owner.has_owner(owner_id@) || owner_tasks(self@, owner_id@).len()
                == 0 {
                fails_with(r, missing_error("Task"@, "No tasks found for "@, owner_id@, ""@))
            } else if owner_tasks_by_completion(self@, owner_id@, false).len() == 0 {
                fails_with(
                    r,
                    missing_error("Task"@, "No incomplete tasks found for "@, owner_id@, ""@),
                )
            } else {
                r matches Response::Success(list) && views(list@) == owner_tasks_by_completion(
                    self@,
                    owner_id@,
                    false,
                )
            },
    {
        let all_tasks = match self.get_tasks_by_owner(owner_id.clone()) {
            Response::Success(tasks) => tasks,
            Response::Error(e) => {
                return Response::Error(e);
            },
        };
        let incomplete_tasks = select_tasks(&all_tasks, false);
        if incomplete_tasks.len() == 0 {
            return Response::Error(
                ContractError::missing(
                    "Task",
                    "No incomplete tasks found for ",
                    owner_id.as_str(),
                    "",
                ),
            );
        }
        Response::Success(incomplete_tasks)
    }

    /// The tasks of `owner_id` that are completed, in the order in which they were made, which a
    /// deletion leaves as it is for the rest.
    pub fn get_completed_tasks(&self, owner_id: String) -> (r: TaskListResponse)
        requires
            self.wf(),
        ensures
            if !self@.tasks_per_owner.has_owner(owner_id@) || owner_tasks(self@, owner_id@).len()
                == 0 {
                fails_with(r, missing_error("Task"@, "No tasks found for "@, owner_id@, ""@))
            } else if owner_tasks_by_completion(self@, owner_id@, true).len() == 0 {
                fails_with(
                    r,
                    missing_error("Task"@, "No completed tasks found for "@, owner_id@, ""@),
                )
            } else {
                r matches Response::Success(list) && views(list@) == owner_tasks_by_completion(
                    self@,
                    owner_id@,
                    true,
                )
            },
    {
        let all_tasks = match self.get_tasks_by_owner(owner_id.clone()) {
            Response::Success(tasks) => tasks,
            Response::Error(e) => {
                return Response::Error(e);
            },
        };
        let completed_tasks = select_tasks(&all_tasks, true);
        if completed_tasks.len() == 0 {
            return Response::Error(
                ContractError::missing(
                    "Task",
                    "No completed tasks found for ",
                    owner_id.as_str(),
                    "",
                ),
            );
        }
        Response::Success(completed_tasks)
    }

    /// Overwrites every field of a task of the caller that an owner may
    /// set, and computes its reward anew.
    pub fn update_task(
        &mut self,
        task_id: TaskId,
        title: String,
        description: String,
        priority: Priority,
        deadline: u64,
        estimated_time: u32,
        time_slots: Option<Vec<TaskTimeSlot>>,
        ctx: &Context,
    ) -> (r: TaskActionResponse)
        requires
            old(self).wf(),
        ensures
            final(self).wf(),
            match update_task_error(
                old(self)@,
                task_id@,
                edited_task(
                    old(self)@,
                    task_id@,
                    title@,
                    description@,
                    priority,
                    deadline,
                    estimated_time,
                    given_slots(time_slots),
                ),
                *ctx,
            ) {
                Some(e) => fails_with(r, e) && *final(self) == *old(self),
                None => names(r, task_id@) && task_written(
                    old(self)@,
                    final(self)@,
                    task_id@,
                    normalized(
                        edited_task(
                            old(self)@,
                            task_id@,
                            title@,
                            description@,
                            priority,
                            deadline,
                            estimated_time,
                            given_slots(time_slots),
                        ),
                    ),
                ),
            },
    {
        let place = match locate(&self.tasks, &self.tasks_per_owner, &task_id) {
            Some(place) => place,
            None => {
                return Response::Error(
                    ContractError::missing("Task", "Task ", task_id.as_str(), " not found"),
                );
            },
        };
        let mut task = self.tasks.value_at(place).clone();
        if let Err(e) = task.validate_ownership(ctx) {
            return Response::Error(ContractError::AccessError(e));
        }
        task.title = title;
        task.description = description;
        task.priority = priority;
        task.deadline = deadline;
        task.estimated_time = estimated_time;
        if let Some(slots) = time_slots {
            task.time_slots = slots;
        }
        task.reward_points = Task::calculate_reward_points(estimated_time, priority);
        if let Err(e) = task.validate(ctx) {
            return Response::Error(ContractError::from_task(e));
        }
        rewrite(&mut self.tasks, &self.tasks_per_owner, place, task);
        Response::Success(task_id)
    }

    /// Marks a task of the caller whose deadline has passed as overdue
    /// and drops its slots.
    pub fn mark_task_overdue(&mut self, task_id: TaskId, ctx: &Context) -> (r: TaskActionResponse)
        requires
            old(self).wf(),
        ensures
            final(self).wf(),
            match mark_task_overdue_error(old(self)@, task_id@, *ctx) {
                Some(e) => fails_with(r, e) && *final(self) == *old(self),
                None => names(r, task_id@) && task_written(
                    old(self)@,
                    final(self)@,
                    task_id@,
                    overdue_task(old(self)@, task_id@),
                ),
            },
    {
        let place = match locate(&self.tasks, &self.tasks_per_owner, &task_id) {
            Some(place) => place,
            None => {
                return Response::Error(
                    ContractError::missing("Task", "Task ", task_id.as_str(), " not found"),
                );
            },
        };
        let mut task = self.tasks.value_at(place).clone();
        if let Err(e) = task.validate_ownership(ctx) {
            return Response::Error(ContractError::AccessError(e));
        }
        if ctx.now <= task.deadline {
            return Response::Error(
                ContractError::validation(
                    "Task",
                    "Cannot mark as overdue before deadline".to_owned(),
                ),
            );
        }
        if let Err(e) = task.transition_to(TaskState::Overdue, ctx) {
            return Response::Error(ContractError::from_task(e));
        }
        task.time_slots.clear();
        assert(task.time_slots@ =~= Seq::<TaskTimeSlot>::empty());
        rewrite(&mut self.tasks, &self.tasks_per_owner, place, task);
        Response::Success(task_id)
    }

    /// Sets aside the estimated time of a task of the caller from
    /// `scheduled_start_time` on, and starts the task.
    pub fn start_task(&mut self, task_id: TaskId, scheduled_start_time: u64, ctx: &Context) -> (r:
        TaskActionResponse)
        requires
            old(self).wf(),
        ensures
            final(self).wf(),
            match start_task_error(old(self)@, task_id@, scheduled_start_time, *ctx) {
                Some(e) => fails_with(r, e) && *final(self) == *old(self),
                None => names(r, task_id@) && task_written(
                    old(self)@,
                    final(self)@,
                    task_id@,
                    started_task(old(self)@, task_id@, scheduled_start_time),
                ),
            },
    {
        let place = match locate(&self.tasks, &self.tasks_per_owner, &task_id) {
            Some(place) => place,
            None => {
                return Response::Error(
                    ContractError::missing("Task", "Task ", task_id.as_str(), " not found"),
                );
            },
        };
        let mut task = self.tasks.value_at(place).clone();
        if let Err(e) = task.validate_ownership(ctx) {
            return Response::Error(ContractError::AccessError(e));
        }
        assert(task.estimated_time * MINUTE_NANOS <= u32::MAX * MINUTE_NANOS) by (nonlinear_arith)
            requires
                task.estimated_time <= u32::MAX,
        ;
        let scheduled_end_time: u128 = (scheduled_start_time as u128) + (
        task.estimated_time as u128) * (MINUTE_NANOS as u128);
        if scheduled_end_time > u64::MAX as u128 {
            return Response::Error(
                ContractError::Operation("Scheduled time is out of range".to_owned()),
            );
        }
        task.time_slots.push(
            TaskTimeSlot { start_time: scheduled_start_time, end_time: scheduled_end_time as u64 },
        );
        if let Err(e) = task.validate(ctx) {
            return Response::Error(ContractError::from_task(e));
        }
        if let Err(e) = task.transition_to(TaskState::InProgress, ctx) {
            return Response::Error(ContractError::from_task(e));
        }
        rewrite(&mut self.tasks, &self.tasks_per_owner, place, task);
        Response::Success(task_id)
    }

    /// Gives a task of the caller the slots between the given times, in
    /// place of the slots that it has, and starts it if it was only
    /// created.
    pub fn split_task(&mut self, task_id: TaskId, split_times: Vec<u64>, ctx: &Context) -> (r:
        TaskActionResponse)
        requires
            old(self).wf(),
        ensures
            final(self).wf(),
            match split_task_error(old(self)@, task_id@, split_times@, *ctx) {
                Some(e) => fails_with(r, e) && *final(self) == *old(self),
                None => names(r, task_id@) && task_written(
                    old(self)@,
                    final(self)@,
                    task_id@,
                    split_result(old(self)@, task_id@, split_times@),
                ),
            },
    {
        if split_times.len() < 2 {
            return Response::Error(
                ContractError::validation(
                    "Task",
                    "Need at least two split points to split a task".to_owned(),
                ),
            );
        }
        let place = match locate(&self.tasks, &self.tasks_per_owner, &task_id) {
            Some(place) => place,
            None => {
                return Response::Error(
                    ContractError::missing("Task", "Task ", task_id.as_str(), " not found"),
                );
            },
        };
        let mut task = self.tasks.value_at(place).clone();
        if let Err(e) = task.validate_ownership(ctx) {
            return Response::Error(ContractError::AccessError(e));
        }
        let ordered_times = sort_times(&split_times);
        task.time_slots = make_slots(&ordered_times);
        if let Err(e) = task.validate(ctx) {
            return Response::Error(ContractError::from_task(e));
        }
        if task.state == TaskState::Created {
            if let Err(e) = task.transition_to(TaskState::InProgress, ctx) {
                return Response::Error(ContractError::from_task(e));
            }
        }
        rewrite(&mut self.tasks, &self.tasks_per_owner, place, task);
        Response::Success(task_id)
    }

    /// The habits of `owner_id`, in the order in which they were made.
    pub fn get_habits_by_owner(&self, owner_id: String) -> (r: HabitListResponse)
        requires
            self.wf(),
        ensures
            if !self@.habits_per_owner.has_owner(owner_id@) || owner_habits(self@, owner_id@).len()
                == 0 {
                fails_with(r, missing_error("Habit"@, "No habits found for "@, owner_id@, ""@))
            } else {
                r matches Response::Success(list) && views(list@) == owner_habits(self@, owner_id@)
            },
    {
        let all = match owned_entities(&self.habits, &self.habits_per_owner, &owner_id) {
            Some(all) => all,
            None => {
                return Response::Error(
                    ContractError::missing("Habit", "No habits found for ", owner_id.as_str(), ""),
                );
            },
        };
        assert(views(all@) =~= owner_habits(self@, owner_id@));
        if all.len() == 0 {
            return Response::Error(
                ContractError::missing("Habit", "No habits found for ", owner_id.as_str(), ""),
            );
        }
        Response::Success(all)
    }

    /// The streak of a habit of the caller.
    pub fn get_habit_streak(&self, habit_id: HabitId, ctx: &Context) -> (r: Response<
        u32,
        ContractError,
    >)
        requires
            self.wf(),
        ensures
            if !self@.habits.contains_key(habit_id@) {
                fails_with(r, habit_missing(habit_id@))
            } else if view_of(self@.habits, habit_id@).owner_id != ctx.caller@ {
                fails_with(r, not_owner())
            } else {
                r == Response::<u32, ContractError>::Success(
                    view_of(self@.habits, habit_id@).streak,
                )
            },
    {
        let habit = match self.habits.get(&habit_id) {
            Some(habit) => habit,
            None => {
                return Response::Error(
                    ContractError::missing("Habit", "Habit ", habit_id.as_str(), " not found"),
                );
            },
        };
        if let Err(e) = habit.validate_ownership(ctx) {
            return Response::Error(ContractError::AccessError(e));
        }
        Response::Success(habit.streak)
    }

    /// The times at which a task of the caller was completed.
    pub fn get_task_completion_history(&self, task_id: TaskId, ctx: &Context) -> (r: Response<
        Vec<u64>,
        ContractError,
    >)
        requires
            self.wf(),
        ensures
            match task_access_error(self@, task_id@, *ctx) {
                Some(e) => fails_with(r, e),
                None => r matches Response::Success(times) && times@ == completions_of(
                    self@,
                    task_id@,
                ),
            },
    {
        let task = match self.tasks.get(&task_id) {
            Some(task) => task,
            None => {
                return Response::Error(
                    ContractError::missing("Task", "Task ", task_id.as_str(), " not found"),
                );
            },
        };
        if let Err(e) = task.validate_ownership(ctx) {
            return Response::Error(ContractError::AccessError(e));
        }
        match self.task_completions.get(&task_id) {
            Some(times) => {
                let copy = times.clone();
                assert(copy@ =~= times@);
                Response::Success(copy)
            },
            None => Response::Success(Vec::new()),
        }
    }
}

} // verus!
