//! Tasks and their subtasks: adding a task under a parent and deleting a
//! task with all that it lists.

use vstd::prelude::*;
use crate::context::Context;
use crate::contract::{engine_wf, not_owner, Contract, EngineView};
use crate::contract::tasks::task_access_error;
use crate::errors::{
    missing_error, operation_error, task_error_view, ContractError, ErrorView,
};
use crate::models::habit::{fresh_habit, habit_quota_verdict, Habit};
use crate::models::task::{
    fresh_task, normalized, task_verdict, Priority, SubtaskError, Task, TaskError, TaskId,
    TaskTimeSlot, TaskValidationError, TaskView,
};
use crate::models::time_slot::{RecurrencePattern, RecurrenceView};
use crate::models::traits::Ownable;
use crate::registry::{
    lemma_entity_id_made_for, locate, records, register, rewrite, table_set, unregister, view_of,
};
use crate::response::{fails_with, names, Response, TaskActionResponse};
use crate::store::{index_added, lemma_strike_all, strike, strike_all, OwnerIndex, Table};
use crate::text::{contains_id, copy_ids, entity_id, id_texts};

verus! {

/// What `delete_task` takes out: the subtasks that the task lists, then
/// the task.
pub open spec fn deleted_ids(before: EngineView, id: Seq<char>) -> Seq<Seq<char>> {
    view_of(before.tasks, id).subtask_ids.push(id)
}

/// What is left of the tasks and of their index once the identifiers
/// `gone` are struck from both: the tasks that stay are as they were, in
/// their order, and every owner stays entered.
pub open spec fn tasks_struck(
    before_tasks: Table<Task>,
    before_index: OwnerIndex,
    after_tasks: Table<Task>,
    after_index: OwnerIndex,
    gone: Seq<Seq<char>>,
) -> bool {
    &&& after_tasks.keys() == strike_all(before_tasks.keys(), gone)
    &&& forall|k: Seq<char>| #[trigger]
        after_tasks.contains_key(k) ==> before_tasks.contains_key(k) && after_tasks.value_of(k)
            == before_tasks.value_of(k)
    &&& forall|owner: Seq<char>| after_index.has_owner(owner) == before_index.has_owner(owner)
    &&& forall|owner: Seq<char>| #[trigger]
        after_index.ids_of(owner) == strike_all(before_index.ids_of(owner), gone)
}

/// After a task is deleted, neither it nor any subtask that it listed is
/// in the table or in the index of any owner.
pub proof fn lemma_deleted_are_gone(
    before: EngineView,
    after: EngineView,
    id: Seq<char>,
    gone: Seq<char>,
)
    requires
        engine_wf(before),
        delete_task_effect(before, after, id),
        deleted_ids(before, id).contains(gone),
    ensures
        !after.tasks.contains_key(gone),
        forall|owner: Seq<char>| !(#[trigger] after.tasks_per_owner.ids_of(owner)).contains(gone),
{
    lemma_strike_all(before.tasks.keys(), deleted_ids(before, id));
    assert forall|owner: Seq<char>| !(#[trigger] after.tasks_per_owner.ids_of(owner)).contains(
        gone,
    ) by {
        before.tasks_per_owner.lemma_no_duplicates(owner);
        lemma_strike_all(before.tasks_per_owner.ids_of(owner), deleted_ids(before, id));
    }
}

/// What `delete_task` makes of the engine: the task and the subtasks that
/// it lists are gone from the table and from the index.
pub open spec fn delete_task_effect(before: EngineView, after: EngineView, id: Seq<char>) -> bool {
    &&& tasks_struck(
        before.tasks,
        before.tasks_per_owner,
        after.tasks,
        after.tasks_per_owner,
        deleted_ids(before, id),
    )
    &&& after == (EngineView {
        tasks: after.tasks,
        tasks_per_owner: after.tasks_per_owner,
        ..before
    })
}

/// The error for a parent task that is not there.
pub open spec fn parent_missing(id: Seq<char>) -> ErrorView {
    missing_error("Parent Task"@, "Parent task "@, id, " not found"@)
}

/// The text of an optional identifier.
pub open spec fn given_id(id: Option<String>) -> Option<Seq<char>> {
    match id {
        Some(text) => Some(text@),
        None => None,
    }
}

/// The view of an optional pattern.
pub open spec fn given_pattern(pattern: Option<RecurrencePattern>) -> Option<RecurrenceView> {
    match pattern {
        Some(p) => Some(p@),
        None => None,
    }
}

/// The slots of an optional list, none where no list is given.
pub open spec fn slots_or_none(time_slots: Option<Vec<TaskTimeSlot>>) -> Seq<TaskTimeSlot> {
    match time_slots {
        Some(slots) => slots@,
        None => Seq::empty(),
    }
}

/// The task that `add_task` stores for a draft: the draft with its texts
/// trimmed, under its parent.
pub open spec fn added_task(draft: TaskView, parent: Option<Seq<char>>) -> TaskView {
    TaskView { parent_task_id: parent, ..normalized(draft) }
}

/// The parent with the new task in its list.
pub open spec fn parent_after_link(before: EngineView, id: Seq<char>, parent: Seq<char>) -> TaskView {
    let linked = view_of(before.tasks, parent);
    TaskView { subtask_ids: linked.subtask_ids.push(id), ..linked }
}

/// The error for a task that its parent lists already.
pub open spec fn already_listed_error(count: nat) -> ErrorView {
    task_error_view(
        TaskError::Validation(
            TaskValidationError::Subtasks {
                reason: SubtaskError::DuplicateId,
                current_count: count as usize,
            },
        ),
    )
}

/// The error for a task whose identifier is taken.
pub open spec fn task_exists(id: Seq<char>) -> ErrorView {
    operation_error("Task already exists: "@, id)
}

/// The error for a habit whose identifier is taken.
pub open spec fn habit_exists(id: Seq<char>) -> ErrorView {
    operation_error("Habit already exists: "@, id)
}

/// Why `add_task` fails, if it does: the parent is not there or is not
/// the caller's, the new task breaks a rule or its identifier is taken,
/// the habit for it is beyond the quota or its identifier is taken, or
/// the parent lists the task already.
pub open spec fn add_task_error(
    before: EngineView,
    draft: TaskView,
    parent: Option<Seq<char>>,
    recurrence: Option<RecurrenceView>,
    ctx: Context,
) -> Option<ErrorView> {
    if parent is Some && !before.tasks.contains_key(parent->0) {
        Some(parent_missing(parent->0))
    } else if parent is Some && view_of(before.tasks, parent->0).owner_id != ctx.caller@ {
        Some(not_owner())
    } else if let Err(e) = task_verdict(draft, ctx) {
        Some(task_error_view(e))
    } else if before.tasks.contains_key(draft.id) {
        Some(task_exists(draft.id))
    } else if recurrence is Some && habit_quota_verdict(
        fresh_habit(draft.id, recurrence->0, ctx.caller@, ctx.now),
        ctx,
    ) is Err {
        Some(
            ErrorView::StorageError(
                habit_quota_verdict(
                    fresh_habit(draft.id, recurrence->0, ctx.caller@, ctx.now),
                    ctx,
                )->Err_0,
            ),
        )
    } else if recurrence is Some && before.habits.contains_key(
        fresh_habit(draft.id, recurrence->0, ctx.caller@, ctx.now).id,
    ) {
        Some(habit_exists(fresh_habit(draft.id, recurrence->0, ctx.caller@, ctx.now).id))
    } else if parent is Some && view_of(before.tasks, parent->0).subtask_ids.contains(draft.id) {
        Some(already_listed_error(view_of(before.tasks, parent->0).subtask_ids.len()))
    } else {
        None
    }
}

/// What `add_task` makes of the engine: the new task stands under its
/// identifier, after the tasks that were there, and is entered for the
/// caller; its parent, if it has one, lists it; the habit for it, if it
/// recurs, stands under its own identifier, after the habits that were
/// there, and is entered for the caller; and every other task and habit
/// is as it was.
pub open spec fn add_task_effect(
    before: EngineView,
    after: EngineView,
    draft: TaskView,
    parent: Option<Seq<char>>,
    recurrence: Option<RecurrenceView>,
    ctx: Context,
) -> bool {
    let task = added_task(draft, parent);
    &&& !before.tasks.contains_key(task.id)
    &&& after.tasks.keys() == before.tasks.keys().push(task.id)
    &&& view_of(after.tasks, task.id) == task
    &&& forall|k: Seq<char>|
        before.tasks.contains_key(k) && parent != Some(k) ==> #[trigger] view_of(after.tasks, k)
            == view_of(before.tasks, k)
    &&& parent is Some ==> view_of(after.tasks, parent->0) == parent_after_link(
        before,
        task.id,
        parent->0,
    )
    &&& index_added(before.tasks_per_owner, after.tasks_per_owner, ctx.caller@, task.id)
    &&& match recurrence {
        Some(pattern) => {
            let habit = fresh_habit(task.id, pattern, ctx.caller@, ctx.now);
            !before.habits.contains_key(habit.id) && table_set(
                before.habits,
                after.habits,
                habit.id,
                habit,
            ) && index_added(
                before.habits_per_owner,
                after.habits_per_owner,
                ctx.caller@,
                habit.id,
            )
        },
        None => after.habits == before.habits && after.habits_per_owner
            == before.habits_per_owner,
    }
    &&& after == (EngineView {
        tasks: after.tasks,
        tasks_per_owner: after.tasks_per_owner,
        habits: after.habits,
        habits_per_owner: after.habits_per_owner,
        ..before
    })
}

impl Contract {
    /// Takes one task out of the table and out of the index of its owner,
    /// if it is there.
    fn strike_task(&mut self, task_id: &String, Ghost(start): Ghost<EngineView>, Ghost(gone): Ghost<
        Seq<Seq<char>>,
    >)
        requires
            old(self).wf(),
            engine_wf(start),
            tasks_struck(
                start.tasks,
                start.tasks_per_owner,
                old(self)@.tasks,
                old(self)@.tasks_per_owner,
                gone,
            ),
        ensures
            final(self).wf(),
            tasks_struck(
                start.tasks,
                start.tasks_per_owner,
                final(self)@.tasks,
                final(self)@.tasks_per_owner,
                gone.push(task_id@),
            ),
            final(self)@ == (EngineView {
                tasks: final(self)@.tasks,
                tasks_per_owner: final(self)@.tasks_per_owner,
                ..old(self)@
            }),
    {
        let ghost tasks0 = self.tasks;
        let ghost index0 = self.tasks_per_owner;
        let taken = unregister(&mut self.tasks, &mut self.tasks_per_owner, task_id);
        proof {
            let more = gone.push(task_id@);
            assert(more.drop_last() =~= gone);
            assert(more.last() == task_id@);
            assert(self.tasks.keys() == strike(tasks0.keys(), task_id@));
            assert forall|owner: Seq<char>| #[trigger]
                self.tasks_per_owner.ids_of(owner) == strike_all(
                    start.tasks_per_owner.ids_of(owner),
                    more,
                ) by {
                assert(index0.ids_of(owner) == strike_all(start.tasks_per_owner.ids_of(owner), gone));
                match taken {
                    Some(task) => {
                        if owner != task.owner_id@ {
                            if index0.ids_of(owner).contains(task_id@) {
                                let place = tasks0.position(task_id@);
                                assert(tasks0.keys()[place] == task_id@);
                                assert(records(tasks0.values())[place].owner == owner);
                            }
                        }
                    },
                    None => {
                        if index0.ids_of(owner).contains(task_id@) {
                            assert(tasks0.contains_key(task_id@));
                        }
                    },
                }
            }
            assert forall|k: Seq<char>| #[trigger]
                self.tasks.contains_key(k) implies start.tasks.contains_key(k)
                && self.tasks.value_of(k) == start.tasks.value_of(k) by {
                assert(tasks0.contains_key(k));
            }
        }
    }

    /// Removes a task of the caller, and with it the subtasks that it
    /// lists, whoever owns them.
    pub fn delete_task(&mut self, task_id: TaskId, ctx: &Context) -> (r: TaskActionResponse)
        requires
            old(self).wf(),
        ensures
            final(self).wf(),
            match task_access_error(old(self)@, task_id@, *ctx) {
                Some(e) => fails_with(r, e) && *final(self) == *old(self),
                None => names(r, task_id@) && delete_task_effect(
                    old(self)@,
                    final(self)@,
                    task_id@,
                ),
            },
    {
        let subtask_ids = match self.tasks.get(&task_id) {
            Some(task) => {
                if let Err(e) = task.validate_ownership(ctx) {
                    return Response::Error(ContractError::AccessError(e));
                }
                copy_ids(&task.subtask_ids)
            },
            None => {
                return Response::Error(
                    ContractError::missing("Task", "Task ", task_id.as_str(), " not found"),
                );
            },
        };
        let ghost start = self@;
        let ghost listed = id_texts(subtask_ids@);
        assert(listed == view_of(start.tasks, task_id@).subtask_ids);
        let mut n: usize = 0;
        proof {
            assert(listed.take(0) =~= Seq::<Seq<char>>::empty());
        }
        while n < subtask_ids.len()
            invariant
                n <= subtask_ids.len(),
                listed == id_texts(subtask_ids@),
                engine_wf(start),
                self.wf(),
                tasks_struck(
                    start.tasks,
                    start.tasks_per_owner,
                    self@.tasks,
                    self@.tasks_per_owner,
                    listed.take(n as int),
                ),
                self@ == (EngineView {
                    tasks: self@.tasks,
                    tasks_per_owner: self@.tasks_per_owner,
                    ..start
                }),
            decreases subtask_ids.len() - n,
        {
            self.strike_task(&subtask_ids[n], Ghost(start), Ghost(listed.take(n as int)));
            proof {
                assert(listed.take(n + 1) =~= listed.take(n as int).push(subtask_ids@[n as int]@));
            }
            n += 1;
        }
        proof {
            assert(listed.take(n as int) =~= listed);
        }
        self.strike_task(&task_id, Ghost(start), Ghost(listed));
        Response::Success(task_id)
    }

    /// Makes a task for the caller: under a parent of the caller's, if
    /// one is named, and with a habit, if a pattern is given. No stored
    /// task or habit is written over, and nothing is written unless all
    /// of it goes through.
    pub fn add_task(
        &mut self,
        title: String,
        description: String,
        priority: Priority,
        deadline: u64,
        estimated_time: u32,
        time_slots: Option<Vec<TaskTimeSlot>>,
        parent_task_id: Option<TaskId>,
        recurrence_pattern: Option<RecurrencePattern>,
        ctx: &Context,
    ) -> (r: TaskActionResponse)
        requires
            old(self).wf(),
        ensures
            final(self).wf(),
            match add_task_error(
                old(self)@,
                fresh_task(
                    title@,
                    description@,
                    priority,
                    deadline,
                    estimated_time,
                    slots_or_none(time_slots),
                    ctx.caller@,
                    ctx.now,
                ),
                given_id(parent_task_id),
                given_pattern(recurrence_pattern),
                *ctx,
            ) {
                Some(e) => fails_with(r, e) && *final(self) == *old(self),
                None => names(r, entity_id("task"@, ctx.caller@, ctx.now)) && add_task_effect(
                    old(self)@,
                    final(self)@,
                    fresh_task(
                        title@,
                        description@,
                        priority,
                        deadline,
                        estimated_time,
                        slots_or_none(time_slots),
                        ctx.caller@,
                        ctx.now,
                    ),
                    given_id(parent_task_id),
                    given_pattern(recurrence_pattern),
                    *ctx,
                ),
            },
    {
        if let Some(parent_id) = &parent_task_id {
            match self.tasks.get(parent_id) {
                Some(parent_task) => {
                    if let Err(e) = parent_task.validate_ownership(ctx) {
                        return Response::Error(ContractError::AccessError(e));
                    }
                },
                None => {
                    return Response::Error(
                        ContractError::missing(
                            "Parent Task",
                            "Parent task ",
                            parent_id.as_str(),
                            " not found",
                        ),
                    );
                },
            }
        }
        let slots = match time_slots {
            Some(slots) => slots,
            None => Vec::new(),
        };
        let mut task = match Task::new(
            title,
            description,
            priority,
            deadline,
            estimated_time,
            slots,
            ctx.caller.clone(),
            ctx,
        ) {
            Ok(task) => task,
            Err(e) => {
                return Response::Error(ContractError::from_task(e));
            },
        };
        task.parent_task_id = match &parent_task_id {
            Some(parent_id) => Some(parent_id.clone()),
            None => None,
        };
        let task_id = task.id.clone();
        if self.tasks.find(&task_id).is_some() {
            return Response::Error(
                ContractError::operation("Task already exists: ", task_id.as_str()),
            );
        }
        let habit = match recurrence_pattern {
            Some(recurrence) => {
                match Habit::new(task_id.clone(), recurrence, ctx.caller.clone(), ctx) {
                    Ok(habit) => {
                        if self.habits.find(&habit.id).is_some() {
                            return Response::Error(
                                ContractError::operation(
                                    "Habit already exists: ",
                                    habit.id.as_str(),
                                ),
                            );
                        }
                        Some(habit)
                    },
                    Err(e) => {
                        return Response::Error(ContractError::StorageError(e));
                    },
                }
            },
            None => None,
        };
        if let Some(parent_id) = &parent_task_id {
            match self.tasks.get(parent_id) {
                Some(parent_task) => {
                    if contains_id(&parent_task.subtask_ids, &task_id) {
                        return Response::Error(
                            ContractError::from_task(
                                TaskError::Validation(
                                    TaskValidationError::Subtasks {
                                        reason: SubtaskError::DuplicateId,
                                        current_count: parent_task.subtask_ids.len(),
                                    },
                                ),
                            ),
                        );
                    }
                },
                None => {},
            }
        }
        let ghost stored = task@;
        proof {
            lemma_entity_id_made_for("task"@, task.owner_id@, ctx.now);
        }
        register(&mut self.tasks, &mut self.tasks_per_owner, task);
        if let Some(habit) = habit {
            proof {
                lemma_entity_id_made_for("habit"@, habit.owner_id@, ctx.now);
            }
            register(&mut self.habits, &mut self.habits_per_owner, habit);
        }
        if let Some(parent_id) = parent_task_id {
            let ghost linked = self.tasks;
            match locate(&self.tasks, &self.tasks_per_owner, &parent_id) {
                Some(place) => {
                    let mut parent_task = self.tasks.value_at(place).clone();
                    assert(parent_task@ == view_of(old(self)@.tasks, parent_id@));
                    match parent_task.add_subtask(task_id.clone()) {
                        Ok(_) => {
                            rewrite(&mut self.tasks, &self.tasks_per_owner, place, parent_task);
                            proof {
                                assert forall|k: Seq<char>|
                                    old(self)@.tasks.contains_key(k) && k
                                        != parent_id@ implies #[trigger] view_of(self.tasks, k)
                                    == view_of(old(self)@.tasks, k) by {
                                    assert(view_of(linked, k) == view_of(old(self)@.tasks, k));
                                    assert(linked.contains_key(k));
                                }
                                assert(linked.contains_key(stored.id));
                                assert(view_of(self.tasks, stored.id) == view_of(
                                    linked,
                                    stored.id,
                                ));
                            }
                        },
                        Err(e) => {
                            assert(false);
                        },
                    }
                },
                None => {
                    assert(false);
                },
            }
        }
        Response::Success(task_id)
    }
}

} // verus!
