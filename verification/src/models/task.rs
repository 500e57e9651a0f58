//! Tasks: their rules of validation, their states, and their reward.

use vstd::prelude::*;
use vstd::string::*;
use crate::context::Context;
use crate::models::config::{
    MAX_DESCRIPTION_LENGTH, MAX_FUTURE_TIME, MAX_MINUTES, MAX_TITLE_LENGTH, TASK_BASE_STORAGE,
    TASK_MAX_STORAGE,
};
use crate::models::traits::{
    add_bytes, build_metrics, clamp_u64, quota_verdict, Ownable, OwnershipError, Storable,
    StorageError, StorageMetrics,
};
use crate::registry::Entity;
use crate::text::{
    byte_len, contains_id, copy_ids, entity_id, has_forbidden, has_forbidden_char, id_texts,
    lemma_trimmed_idempotent, lemma_trimmed_is_trimmed, lemma_trimmed_keeps_clean, make_entity_id,
    same_text, text_bytes, trim_text, trimmed,
};

verus! {

pub type TaskId = String;

#[derive(Debug, Clone, Copy, PartialEq, Eq, Structural)]
pub enum Priority {
    Low,
    Medium,
    High,
    Critical,
}

#[derive(Debug, Clone, Copy, PartialEq, Eq, Structural)]
pub enum TaskState {
    Created,
    InProgress,
    Completed,
    Overdue,
}

#[derive(Debug, Clone, Copy, PartialEq, Eq, Structural)]
pub enum TaskAction {
    Start,
    Complete,
    Update,
    Delete,
}

/// A stretch of time set aside for a task, in nanoseconds since the epoch.
#[derive(Debug, Clone, Copy, PartialEq, Eq, Structural)]
pub struct TaskTimeSlot {
    pub start_time: u64,
    pub end_time: u64,
}

#[derive(Debug, Clone, Copy, PartialEq, Eq, Structural)]
pub enum TaskError {
    Validation(TaskValidationError),
    Storage(StorageError),
    Access(OwnershipError),
    State(TaskStateError),
}

#[allow(inconsistent_fields)]
#[derive(Debug, Clone, Copy, PartialEq, Eq, Structural)]
pub enum TaskValidationError {
    Title { reason: TitleError, current_length: usize },
    Description { reason: DescriptionError, current_length: usize },
    Deadline { reason: DeadlineError, provided_time: u64 },
    EstimatedTime { reason: EstimatedTimeError, provided_estimated_time: u32 },
    Timing { reason: TimingError, provided_time: u64 },
    Subtasks { reason: SubtaskError, current_count: usize },
}

#[derive(Debug, Clone, Copy, PartialEq, Eq, Structural)]
pub enum TitleError {
    Empty,
    TooLong,
    InvalidCharacters,
}

#[derive(Debug, Clone, Copy, PartialEq, Eq, Structural)]
pub enum DescriptionError {
    TooLong,
    InvalidCharacters,
}

#[derive(Debug, Clone, Copy, PartialEq, Eq, Structural)]
pub enum DeadlineError {
    PastDeadline,
    TooFarInFuture,
    BeforeEndTime,
}

#[derive(Debug, Clone, Copy, PartialEq, Eq, Structural)]
pub enum EstimatedTimeError {
    Zero,
    TooLong,
    MissingEstimatedTime,
}

#[derive(Debug, Clone, Copy, PartialEq, Eq, Structural)]
pub enum TimingError {
    EndBeforeStart,
    OverlappingSlots,
}

#[derive(Debug, Clone, Copy, PartialEq, Eq, Structural)]
pub enum SubtaskError {
    DuplicateId,
    CircularDependency,
}

#[derive(Debug, Clone, Copy, PartialEq, Eq, Structural)]
pub enum TaskStateError {
    InvalidTransition { from: TaskState, to: TaskState },
    InvalidActionForState { state: TaskState, action: TaskAction },
}

#[derive(Debug, PartialEq, Eq)]
pub struct Task {
    pub id: TaskId,
    pub title: String,
    pub description: String,
    pub priority: Priority,
    /// Nanoseconds since the epoch.
    pub deadline: u64,
    /// Minutes.
    pub estimated_time: u32,
    pub reward_points: u32,
    pub time_slots: Vec<TaskTimeSlot>,
    pub state: TaskState,
    pub owner_id: String,
    pub parent_task_id: Option<TaskId>,
    pub subtask_ids: Vec<TaskId>,
}

/// A task as a mathematical value.
pub struct TaskView {
    pub id: Seq<char>,
    pub title: Seq<char>,
    pub description: Seq<char>,
    pub priority: Priority,
    pub deadline: u64,
    pub estimated_time: u32,
    pub reward_points: u32,
    pub time_slots: Seq<TaskTimeSlot>,
    pub state: TaskState,
    pub owner_id: Seq<char>,
    pub parent_task_id: Option<Seq<char>>,
    pub subtask_ids: Seq<Seq<char>>,
}

impl View for Task {
    type V = TaskView;

    open spec fn view(&self) -> TaskView {
        TaskView {
            id: self.id@,
            title: self.title@,
            description: self.description@,
            priority: self.priority,
            deadline: self.deadline,
            estimated_time: self.estimated_time,
            reward_points: self.reward_points,
            time_slots: self.time_slots@,
            state: self.state,
            owner_id: self.owner_id@,
            parent_task_id: match self.parent_task_id {
                Some(id) => Some(id@),
                None => None,
            },
            subtask_ids: id_texts(self.subtask_ids@),
        }
    }
}

/// The points that a task earns: one for each half hour of its estimated
/// time, a remainder of fifteen minutes or more counting as a half hour,
/// times one, two, three or four by rising priority.
pub open spec fn reward_points_for(estimated_time: u32, priority: Priority) -> int {
    let base = if estimated_time % 30 >= 15 {
        estimated_time / 30 + 1
    } else {
        estimated_time as int / 30
    };
    match priority {
        Priority::Low => base,
        Priority::Medium => base * 2,
        Priority::High => base * 3,
        Priority::Critical => base * 4,
    }
}

/// What the rules on titles say of a text: something is left of it when
/// it is trimmed, and it has at most 256 characters, none of them
/// forbidden.
pub open spec fn title_verdict(title: Seq<char>) -> Result<(), TaskValidationError> {
    if trimmed(title).len() == 0 {
        Err(TaskValidationError::Title { reason: TitleError::Empty, current_length: 0 })
    } else if title.len() > MAX_TITLE_LENGTH {
        Err(
            TaskValidationError::Title {
                reason: TitleError::TooLong,
                current_length: title.len() as usize,
            },
        )
    } else if has_forbidden(title) {
        Err(
            TaskValidationError::Title {
                reason: TitleError::InvalidCharacters,
                current_length: title.len() as usize,
            },
        )
    } else {
        Ok(())
    }
}

/// What the rules on descriptions say of a text: at most 1024 characters,
/// none of them forbidden.
pub open spec fn description_verdict(description: Seq<char>) -> Result<
    (),
    TaskValidationError,
> {
    if description.len() > MAX_DESCRIPTION_LENGTH {
        Err(
            TaskValidationError::Description {
                reason: DescriptionError::TooLong,
                current_length: description.len() as usize,
            },
        )
    } else if has_forbidden(description) {
        Err(
            TaskValidationError::Description {
                reason: DescriptionError::InvalidCharacters,
                current_length: description.len() as usize,
            },
        )
    } else {
        Ok(())
    }
}

/// Whether some slot ends at or after `deadline`.
pub open spec fn ends_at_or_after(slots: Seq<TaskTimeSlot>, deadline: u64) -> bool {
    exists|i: int| 0 <= i < slots.len() && deadline <= (#[trigger] slots[i]).end_time
}

/// What the rules on deadlines say of a task at the time `now`: an overdue
/// task passes; any other has its deadline after `now`, less than 365 days
/// ahead, and after the end of each of its slots.
pub open spec fn deadline_verdict(task: TaskView, now: u64) -> Result<(), TaskValidationError> {
    if task.state == TaskState::Overdue {
        Ok(())
    } else if task.deadline <= now {
        Err(
            TaskValidationError::Deadline {
                reason: DeadlineError::PastDeadline,
                provided_time: task.deadline,
            },
        )
    } else if task.deadline >= now + MAX_FUTURE_TIME {
        Err(
            TaskValidationError::Deadline {
                reason: DeadlineError::TooFarInFuture,
                provided_time: task.deadline,
            },
        )
    } else if ends_at_or_after(task.time_slots, task.deadline) {
        Err(
            TaskValidationError::Deadline {
                reason: DeadlineError::BeforeEndTime,
                provided_time: task.deadline,
            },
        )
    } else {
        Ok(())
    }
}

/// What the rules on the estimated time say: between 1 and 1439 minutes.
pub open spec fn estimated_time_verdict(estimated_time: u32) -> Result<(), TaskValidationError> {
    if estimated_time >= MAX_MINUTES {
        Err(
            TaskValidationError::EstimatedTime {
                reason: EstimatedTimeError::TooLong,
                provided_estimated_time: estimated_time,
            },
        )
    } else if estimated_time == 0 {
        Err(
            TaskValidationError::EstimatedTime {
                reason: EstimatedTimeError::Zero,
                provided_estimated_time: estimated_time,
            },
        )
    } else {
        Ok(())
    }
}

/// A slot that does not end after it starts.
pub open spec fn inverted(slot: TaskTimeSlot) -> bool {
    slot.end_time <= slot.start_time
}

/// Two slots that share some time.
pub open spec fn clash(a: TaskTimeSlot, b: TaskTimeSlot) -> bool {
    a.start_time < b.end_time && a.end_time > b.start_time
}

/// The index of the first inverted slot at or after `from`, if any.
pub open spec fn first_inverted(slots: Seq<TaskTimeSlot>, from: int) -> Option<int>
    decreases slots.len() - from,
{
    if from < 0 || from >= slots.len() {
        None
    } else if inverted(slots[from]) {
        Some(from)
    } else {
        first_inverted(slots, from + 1)
    }
}

/// The index of the first slot at or after `from` that clashes with the
/// slot at `i`, if any.
pub open spec fn first_clash_with(slots: Seq<TaskTimeSlot>, i: int, from: int) -> Option<int>
    decreases slots.len() - from,
{
    if from < 0 || from >= slots.len() || i < 0 || i >= slots.len() {
        None
    } else if clash(slots[i], slots[from]) {
        Some(from)
    } else {
        first_clash_with(slots, i, from + 1)
    }
}

/// The later slot of the first clashing pair whose earlier slot is at or
/// after `from`, pairs being taken in the order of their earlier slot and
/// then of their later one.
pub open spec fn first_clash(slots: Seq<TaskTimeSlot>, from: int) -> Option<int>
    decreases slots.len() - from,
{
    if from < 0 || from >= slots.len() {
        None
    } else {
        match first_clash_with(slots, from, from + 1) {
            Some(j) => Some(j),
            None => first_clash(slots, from + 1),
        }
    }
}

/// What the rules on timing say of a list of slots: each ends after it
/// starts, and no two share any time. The first inverted slot is reported
/// with its end, else the first clashing pair with the start of its later
/// slot.
pub open spec fn timing_verdict(slots: Seq<TaskTimeSlot>) -> Result<(), TaskValidationError> {
    match first_inverted(slots, 0) {
        Some(i) => Err(
            TaskValidationError::Timing {
                reason: TimingError::EndBeforeStart,
                provided_time: slots[i].end_time,
            },
        ),
        None => match first_clash(slots, 0) {
            Some(j) => Err(
                TaskValidationError::Timing {
                    reason: TimingError::OverlappingSlots,
                    provided_time: slots[j].start_time,
                },
            ),
            None => Ok(()),
        },
    }
}

/// Slots that each end after they start and of which no two share any time.
pub open spec fn slots_disjoint(slots: Seq<TaskTimeSlot>) -> bool {
    &&& forall|i: int| 0 <= i < slots.len() ==> !inverted(#[trigger] slots[i])
    &&& forall|i: int, j: int|
        0 <= i < j < slots.len() ==> !clash(#[trigger] slots[i], #[trigger] slots[j])
}

/// Whether some identifier occurs twice.
pub open spec fn has_duplicate(ids: Seq<Seq<char>>) -> bool {
    exists|i: int, j: int| 0 <= i < j < ids.len() && #[trigger] ids[i] == #[trigger] ids[j]
}

/// What the rules on subtasks say: no identifier occurs twice.
pub open spec fn subtasks_verdict(ids: Seq<Seq<char>>) -> Result<(), TaskValidationError> {
    if has_duplicate(ids) {
        Err(
            TaskValidationError::Subtasks {
                reason: SubtaskError::DuplicateId,
                current_count: ids.len() as usize,
            },
        )
    } else {
        Ok(())
    }
}

/// The bytes that a list of identifiers takes.
pub open spec fn ids_bytes(ids: Seq<Seq<char>>) -> nat
    decreases ids.len(),
{
    if ids.len() == 0 {
        0
    } else {
        ids_bytes(ids.drop_last()) + byte_len(ids.last())
    }
}

/// The bytes in a task's fields of variable length: its identifier, title,
/// description and owner, its parent's identifier and those of its subtasks.
pub open spec fn task_dynamic_bytes(task: TaskView) -> nat {
    byte_len(task.id) + byte_len(task.title) + byte_len(task.description) + byte_len(
        task.owner_id,
    ) + (match task.parent_task_id {
        Some(id) => byte_len(id),
        None => 0,
    }) + ids_bytes(task.subtask_ids)
}

/// What the quota says of a task.
pub open spec fn task_quota_verdict(task: TaskView, ctx: Context) -> Result<(), StorageError> {
    quota_verdict(
        TASK_BASE_STORAGE + task_dynamic_bytes(task),
        TASK_MAX_STORAGE,
        ctx.byte_cost,
        ctx.balance,
    )
}

/// The task as validation leaves it: with its title trimmed once the title
/// has passed, and its description trimmed once the description has passed
/// after it.
pub open spec fn normalized(task: TaskView) -> TaskView {
    if title_verdict(task.title) is Err {
        task
    } else if description_verdict(task.description) is Err {
        TaskView { title: trimmed(task.title), ..task }
    } else {
        TaskView { title: trimmed(task.title), description: trimmed(task.description), ..task }
    }
}

/// What validation says of a task: the first rule that it breaks, in the
/// order title, description, deadline, estimated time, timing, subtasks,
/// quota. The quota is held against the task with its texts trimmed.
pub open spec fn task_verdict(task: TaskView, ctx: Context) -> Result<(), TaskError> {
    if let Err(e) = title_verdict(task.title) {
        Err(TaskError::Validation(e))
    } else if let Err(e) = description_verdict(task.description) {
        Err(TaskError::Validation(e))
    } else if let Err(e) = deadline_verdict(task, ctx.now) {
        Err(TaskError::Validation(e))
    } else if let Err(e) = estimated_time_verdict(task.estimated_time) {
        Err(TaskError::Validation(e))
    } else if let Err(e) = timing_verdict(task.time_slots) {
        Err(TaskError::Validation(e))
    } else if let Err(e) = subtasks_verdict(task.subtask_ids) {
        Err(TaskError::Validation(e))
    } else if let Err(e) = task_quota_verdict(normalized(task), ctx) {
        Err(TaskError::Storage(e))
    } else {
        Ok(())
    }
}

/// Whether a task may pass into `to` at the time `now`. A task with a
/// parent may always be completed. Otherwise a created task may be
/// started, a task in progress or overdue may be completed, and a created
/// task or one in progress becomes overdue once its deadline has passed.
pub open spec fn transition_allowed(task: TaskView, to: TaskState, now: u64) -> bool {
    if to == TaskState::Completed && task.parent_task_id is Some {
        true
    } else {
        match (task.state, to) {
            (TaskState::Created, TaskState::InProgress) => true,
            (TaskState::InProgress, TaskState::Completed) => true,
            (TaskState::Created, TaskState::Overdue) => now > task.deadline,
            (TaskState::InProgress, TaskState::Overdue) => now > task.deadline,
            (TaskState::Overdue, TaskState::Completed) => true,
            _ => false,
        }
    }
}

/// The task that `Task::new` makes of its arguments at the time `now`,
/// before validation.
pub open spec fn fresh_task(
    title: Seq<char>,
    description: Seq<char>,
    priority: Priority,
    deadline: u64,
    estimated_time: u32,
    time_slots: Seq<TaskTimeSlot>,
    owner: Seq<char>,
    now: u64,
) -> TaskView {
    TaskView {
        id: entity_id("task"@, owner, now),
        title,
        description,
        priority,
        deadline,
        estimated_time,
        reward_points: reward_points_for(estimated_time, priority) as u32,
        time_slots,
        state: TaskState::Created,
        owner_id: owner,
        parent_task_id: None,
        subtask_ids: Seq::empty(),
    }
}

/// Where no slot from `from` on is inverted, none is found.
pub proof fn lemma_first_inverted(slots: Seq<TaskTimeSlot>, from: int)
    requires
        0 <= from <= slots.len(),
    ensures
        match first_inverted(slots, from) {
            Some(i) => from <= i < slots.len() && inverted(slots[i]) && forall|k: int|
                from <= k < i ==> !inverted(#[trigger] slots[k]),
            None => forall|k: int| from <= k < slots.len() ==> !inverted(#[trigger] slots[k]),
        },
    decreases slots.len() - from,
{
    if from < slots.len() && !inverted(slots[from]) {
        lemma_first_inverted(slots, from + 1);
    }
}

/// What `first_clash_with` finds is the first slot after `from` that
/// clashes with the slot at `i`.
pub proof fn lemma_first_clash_with(slots: Seq<TaskTimeSlot>, i: int, from: int)
    requires
        0 <= i < slots.len(),
        0 <= from <= slots.len(),
    ensures
        match first_clash_with(slots, i, from) {
            Some(j) => from <= j < slots.len() && clash(slots[i], slots[j]) && forall|k: int|
                from <= k < j ==> !clash(slots[i], #[trigger] slots[k]),
            None => forall|k: int| from <= k < slots.len() ==> !clash(slots[i], #[trigger] slots[k]),
        },
    decreases slots.len() - from,
{
    if from < slots.len() && !clash(slots[i], slots[from]) {
        lemma_first_clash_with(slots, i, from + 1);
    }
}

/// No clash is found exactly where no two slots from `from` on clash.
pub proof fn lemma_first_clash(slots: Seq<TaskTimeSlot>, from: int)
    requires
        0 <= from <= slots.len(),
    ensures
        first_clash(slots, from) is None <==> forall|i: int, j: int|
            from <= i < j < slots.len() ==> !clash(#[trigger] slots[i], #[trigger] slots[j]),
        first_clash(slots, from) is Some ==> 0 <= first_clash(slots, from)->0 < slots.len(),
    decreases slots.len() - from,
{
    if from < slots.len() {
        lemma_first_clash_with(slots, from, from + 1);
        lemma_first_clash(slots, from + 1);
        if first_clash_with(slots, from, from + 1) is Some {
            let j = first_clash_with(slots, from, from + 1)->0;
            assert(clash(slots[from], slots[j]));
        }
    }
}

/// The rules on timing pass exactly the lists of disjoint slots.
pub proof fn lemma_timing_verdict(slots: Seq<TaskTimeSlot>)
    ensures
        timing_verdict(slots) is Ok <==> slots_disjoint(slots),
{
    lemma_first_inverted(slots, 0);
    lemma_first_clash(slots, 0);
    if first_inverted(slots, 0) is Some {
        let i = first_inverted(slots, 0)->0;
        assert(inverted(slots[i]));
    }
}

/// A task that is not overdue and passes validation has its deadline
/// after the time of validation, less than 365 days ahead, and after the
/// end of each of its slots.
pub proof fn lemma_valid_deadline(task: TaskView, ctx: Context)
    requires
        task_verdict(task, ctx) is Ok,
        task.state != TaskState::Overdue,
    ensures
        task.deadline > ctx.now,
        task.deadline < ctx.now + MAX_FUTURE_TIME,
        forall|i: int|
            0 <= i < task.time_slots.len() ==> task.deadline > (#[trigger] task.time_slots[i]).end_time,
{
}

/// A title and a description in the form in which they are stored: the
/// title with 1 to 256 characters, the description with at most 1024,
/// both trimmed and without forbidden characters.
pub open spec fn texts_in_form(title: Seq<char>, description: Seq<char>) -> bool {
    &&& 1 <= title.len() <= MAX_TITLE_LENGTH
    &&& trimmed(title) == title
    &&& !has_forbidden(title)
    &&& description.len() <= MAX_DESCRIPTION_LENGTH
    &&& trimmed(description) == description
    &&& !has_forbidden(description)
}

/// A task that passes validation is left with its texts in the form in
/// which they are stored.
pub proof fn lemma_validated_texts(task: TaskView, ctx: Context)
    requires
        task_verdict(task, ctx) is Ok,
    ensures
        texts_in_form(normalized(task).title, normalized(task).description),
{
    lemma_trimmed_is_trimmed(task.title);
    lemma_trimmed_is_trimmed(task.description);
    lemma_trimmed_keeps_clean(task.title);
    lemma_trimmed_keeps_clean(task.description);
    lemma_trimmed_idempotent(task.title);
    lemma_trimmed_idempotent(task.description);
}

/// Validation is idempotent: a task that has passed validation passes it
/// again, under the same conditions, and is not changed by it again.
pub proof fn lemma_validation_idempotent(task: TaskView, ctx: Context)
    requires
        task_verdict(task, ctx) is Ok,
    ensures
        task_verdict(normalized(task), ctx) is Ok,
        normalized(normalized(task)) == normalized(task),
{
    lemma_validated_texts(task, ctx);
    let once = normalized(task);
    assert(title_verdict(once.title) is Ok);
    assert(description_verdict(once.description) is Ok);
    assert(once.time_slots == task.time_slots);
    assert(deadline_verdict(once, ctx.now) == deadline_verdict(task, ctx.now));
}

/// A task whose texts are trimmed and which passes validation is left as
/// it is by validation.
pub proof fn lemma_valid_task_unchanged(task: TaskView, ctx: Context)
    requires
        task_verdict(task, ctx) is Ok,
        trimmed(task.title) == task.title,
        trimmed(task.description) == task.description,
    ensures
        normalized(task) == task,
{
}

/// The rules that a task keeps besides the quota.
pub trait TaskValidation: Sized {
    /// The task as a mathematical value.
    spec fn record(&self) -> TaskView;

    /// Checks the title and, where it passes, trims it.
    fn validate_title(&mut self) -> (r: Result<(), TaskValidationError>)
        ensures
            r == title_verdict(old(self).record().title),
            final(self).record() == (if r is Ok {
                TaskView { title: trimmed(old(self).record().title), ..old(self).record() }
            } else {
                old(self).record()
            }),
    ;

    /// Checks the description and, where it passes, trims it.
    fn validate_description(&mut self) -> (r: Result<(), TaskValidationError>)
        ensures
            r == description_verdict(old(self).record().description),
            final(self).record() == (if r is Ok {
                TaskView {
                    description: trimmed(old(self).record().description),
                    ..old(self).record()
                }
            } else {
                old(self).record()
            }),
    ;

    fn validate_deadline(&self, ctx: &Context) -> (r: Result<(), TaskValidationError>)
        ensures
            r == deadline_verdict(self.record(), ctx.now),
    ;

    fn validate_estimated_time(&self) -> (r: Result<(), TaskValidationError>)
        ensures
            r == estimated_time_verdict(self.record().estimated_time),
    ;

    fn validate_timing(&self) -> (r: Result<(), TaskValidationError>)
        ensures
            r == timing_verdict(self.record().time_slots),
    ;

    fn validate_subtasks(&self) -> (r: Result<(), TaskValidationError>)
        ensures
            r == subtasks_verdict(self.record().subtask_ids),
    ;

    /// A completed task may not be updated; every other action is open in
    /// every state.
    fn validate_state_for_action(&self, action: TaskAction) -> (r: Result<(), TaskStateError>)
        ensures
            r == (if self.record().state == TaskState::Completed && action
                == TaskAction::Update {
                Err::<(), TaskStateError>(
                    TaskStateError::InvalidActionForState {
                        state: self.record().state,
                        action,
                    },
                )
            } else {
                Ok(())
            }),
    ;
}

impl Clone for Task {
    fn clone(&self) -> (copy: Self)
        ensures
            copy@ == self@,
    {
        let time_slots = self.time_slots.clone();
        assert(time_slots@ =~= self.time_slots@);
        Task {
            id: self.id.clone(),
            title: self.title.clone(),
            description: self.description.clone(),
            priority: self.priority,
            deadline: self.deadline,
            estimated_time: self.estimated_time,
            reward_points: self.reward_points,
            time_slots,
            state: self.state,
            owner_id: self.owner_id.clone(),
            parent_task_id: match &self.parent_task_id {
                Some(id) => Some(id.clone()),
                None => None,
            },
            subtask_ids: copy_ids(&self.subtask_ids),
        }
    }
}

impl TaskValidation for Task {
    open spec fn record(&self) -> TaskView {
        self@
    }

    fn validate_title(&mut self) -> (r: Result<(), TaskValidationError>) {
        let trimmed_title = trim_text(self.title.as_str());
        if trimmed_title.as_str().unicode_len() == 0 {
            return Err(
                TaskValidationError::Title { reason: TitleError::Empty, current_length: 0 },
            );
        }
        let length = self.title.as_str().unicode_len();
        if length > MAX_TITLE_LENGTH {
            return Err(
                TaskValidationError::Title { reason: TitleError::TooLong, current_length: length },
            );
        }
        if has_forbidden_char(self.title.as_str()) {
            return Err(
                TaskValidationError::Title {
                    reason: TitleError::InvalidCharacters,
                    current_length: length,
                },
            );
        }
        self.title = trimmed_title;
        Ok(())
    }

    fn validate_description(&mut self) -> (r: Result<(), TaskValidationError>) {
        let length = self.description.as_str().unicode_len();
        if length > MAX_DESCRIPTION_LENGTH {
            return Err(
                TaskValidationError::Description {
                    reason: DescriptionError::TooLong,
                    current_length: length,
                },
            );
        }
        if has_forbidden_char(self.description.as_str()) {
            return Err(
                TaskValidationError::Description {
                    reason: DescriptionError::InvalidCharacters,
                    current_length: length,
                },
            );
        }
        self.description = trim_text(self.description.as_str());
        Ok(())
    }

    fn validate_deadline(&self, ctx: &Context) -> (r: Result<(), TaskValidationError>) {
        if self.state == TaskState::Overdue {
            return Ok(());
        }
        if self.deadline <= ctx.now {
            return Err(
                TaskValidationError::Deadline {
                    reason: DeadlineError::PastDeadline,
                    provided_time: self.deadline,
                },
            );
        }
        if self.deadline - ctx.now >= MAX_FUTURE_TIME {
            return Err(
                TaskValidationError::Deadline {
                    reason: DeadlineError::TooFarInFuture,
                    provided_time: self.deadline,
                },
            );
        }
        let mut i: usize = 0;
        while i < self.time_slots.len()
            invariant
                i <= self.time_slots.len(),
                self.state != TaskState::Overdue,
                self.deadline > ctx.now,
                self.deadline < ctx.now + MAX_FUTURE_TIME,
                forall|k: int| 0 <= k < i ==> self.deadline > (#[trigger] self.time_slots@[k]).end_time,
            decreases self.time_slots.len() - i,
        {
            if self.deadline <= self.time_slots[i].end_time {
                assert(self.deadline <= self.time_slots@[i as int].end_time);
                return Err(
                    TaskValidationError::Deadline {
                        reason: DeadlineError::BeforeEndTime,
                        provided_time: self.deadline,
                    },
                );
            }
            i += 1;
        }
        Ok(())
    }

    fn validate_estimated_time(&self) -> (r: Result<(), TaskValidationError>) {
        if self.estimated_time >= MAX_MINUTES {
            Err(
                TaskValidationError::EstimatedTime {
                    reason: EstimatedTimeError::TooLong,
                    provided_estimated_time: self.estimated_time,
                },
            )
        } else if self.estimated_time == 0 {
            Err(
                TaskValidationError::EstimatedTime {
                    reason: EstimatedTimeError::Zero,
                    provided_estimated_time: self.estimated_time,
                },
            )
        } else {
            Ok(())
        }
    }

    fn validate_timing(&self) -> (r: Result<(), TaskValidationError>) {
        let count = self.time_slots.len();
        let ghost slots = self.time_slots@;
        let mut i: usize = 0;
        while i < count
            invariant
                i <= count,
                count == slots.len(),
                slots == self.time_slots@,
                first_inverted(slots, 0) == first_inverted(slots, i as int),
            decreases count - i,
        {
            if self.time_slots[i].end_time <= self.time_slots[i].start_time {
                return Err(
                    TaskValidationError::Timing {
                        reason: TimingError::EndBeforeStart,
                        provided_time: self.time_slots[i].end_time,
                    },
                );
            }
            i += 1;
        }
        i = 0;
        while i < count
            invariant
                i <= count,
                count == slots.len(),
                slots == self.time_slots@,
                first_inverted(slots, 0) is None,
                first_clash(slots, 0) == first_clash(slots, i as int),
            decreases count - i,
        {
            let mut j: usize = i + 1;
            while j < count
                invariant
                    i < count,
                    i < j <= count,
                    count == slots.len(),
                    slots == self.time_slots@,
                    first_inverted(slots, 0) is None,
                    first_clash(slots, 0) == first_clash(slots, i as int),
                    first_clash_with(slots, i as int, i + 1) == first_clash_with(
                        slots,
                        i as int,
                        j as int,
                    ),
                decreases count - j,
            {
                if self.time_slots[i].start_time < self.time_slots[j].end_time
                    && self.time_slots[i].end_time > self.time_slots[j].start_time {
                    assert(clash(slots[i as int], slots[j as int]));
                    assert(first_clash_with(slots, i as int, j as int) == Some(j as int));
                    assert(first_clash(slots, i as int) == Some(j as int));
                    return Err(
                        TaskValidationError::Timing {
                            reason: TimingError::OverlappingSlots,
                            provided_time: self.time_slots[j].start_time,
                        },
                    );
                }
                j += 1;
            }
            i += 1;
        }
        Ok(())
    }

    fn validate_subtasks(&self) -> (r: Result<(), TaskValidationError>) {
        let count = self.subtask_ids.len();
        let ghost ids = id_texts(self.subtask_ids@);
        let mut j: usize = 0;
        while j < count
            invariant
                j <= count,
                count == self.subtask_ids@.len(),
                ids == id_texts(self.subtask_ids@),
                forall|a: int, b: int| 0 <= a < b < j ==> ids[a] != ids[b],
            decreases count - j,
        {
            let mut i: usize = 0;
            while i < j
                invariant
                    i <= j < count,
                    count == self.subtask_ids@.len(),
                    ids == id_texts(self.subtask_ids@),
                    forall|a: int| 0 <= a < i ==> ids[a] != ids[j as int],
                decreases j - i,
            {
                if same_text(&self.subtask_ids[i], &self.subtask_ids[j]) {
                    assert(ids[i as int] == ids[j as int]);
                    return Err(
                        TaskValidationError::Subtasks {
                            reason: SubtaskError::DuplicateId,
                            current_count: count,
                        },
                    );
                }
                i += 1;
            }
            j += 1;
        }
        Ok(())
    }

    fn validate_state_for_action(&self, action: TaskAction) -> (r: Result<(), TaskStateError>) {
        if self.state == TaskState::Completed && action == TaskAction::Update {
            Err(TaskStateError::InvalidActionForState { state: self.state, action })
        } else {
            Ok(())
        }
    }
}

impl Ownable for Task {
    open spec fn owner(&self) -> Seq<char> {
        self.owner_id@
    }

    fn get_owner_id(&self) -> (owner: &String) {
        &self.owner_id
    }
}

impl Entity for Task {
    open spec fn kind() -> Seq<char> {
        "task"@
    }

    open spec fn key(&self) -> Seq<char> {
        self.id@
    }

    fn get_id(&self) -> (id: &String) {
        &self.id
    }

    fn kind_name() -> (name: &'static str) {
        "task"
    }
}

impl Storable for Task {
    const BASE_STORAGE: u64 = TASK_BASE_STORAGE;

    const MAX_STORAGE: u64 = TASK_MAX_STORAGE;

    open spec fn dynamic_bytes(&self) -> nat {
        task_dynamic_bytes(self@)
    }

    fn calculate_storage_metrics(&self, ctx: &Context) -> (m: StorageMetrics) {
        let mut dynamic_size: u64 = add_bytes(0, text_bytes(&self.id));
        dynamic_size = add_bytes(dynamic_size, text_bytes(&self.title));
        dynamic_size = add_bytes(dynamic_size, text_bytes(&self.description));
        dynamic_size = add_bytes(dynamic_size, text_bytes(&self.owner_id));
        match &self.parent_task_id {
            Some(id) => {
                dynamic_size = add_bytes(dynamic_size, text_bytes(id));
            },
            None => {},
        }
        let ghost fixed: nat = (task_dynamic_bytes(self@) - ids_bytes(self@.subtask_ids)) as nat;
        let ghost ids = id_texts(self.subtask_ids@);
        let mut i: usize = 0;
        while i < self.subtask_ids.len()
            invariant
                i <= self.subtask_ids.len(),
                ids == id_texts(self.subtask_ids@),
                dynamic_size == clamp_u64((fixed + ids_bytes(ids.take(i as int))) as int),
            decreases self.subtask_ids.len() - i,
        {
            proof {
                assert(ids.take(i + 1).drop_last() =~= ids.take(i as int));
                assert(ids.take(i + 1).last() == self.subtask_ids@[i as int]@);
            }
            dynamic_size = add_bytes(dynamic_size, text_bytes(&self.subtask_ids[i]));
            i += 1;
        }
        assert(ids.take(i as int) =~= ids);
        build_metrics(TASK_BASE_STORAGE, dynamic_size, ctx.byte_cost)
    }

    proof fn budget_is_bounded() {
    }
}

impl Task {
    /// A task for `owner_id`, made at the time of the call in the state
    /// `Created`, and accepted only where validation passes.
    pub fn new(
        title: String,
        description: String,
        priority: Priority,
        deadline: u64,
        estimated_time: u32,
        time_slots: Vec<TaskTimeSlot>,
        owner_id: String,
        ctx: &Context,
    ) -> (r: Result<Self, TaskError>)
        ensures
            match r {
                Ok(task) => {
                    &&& task@ == normalized(
                        fresh_task(
                            title@,
                            description@,
                            priority,
                            deadline,
                            estimated_time,
                            time_slots@,
                            owner_id@,
                            ctx.now,
                        ),
                    )
                    &&& task_verdict(
                        fresh_task(
                            title@,
                            description@,
                            priority,
                            deadline,
                            estimated_time,
                            time_slots@,
                            owner_id@,
                            ctx.now,
                        ),
                        *ctx,
                    ) is Ok
                    &&& texts_in_form(task@.title, task@.description)
                    &&& task.deadline > ctx.now
                    &&& task.deadline < ctx.now + MAX_FUTURE_TIME
                    &&& forall|i: int|
                        0 <= i < task.time_slots@.len() ==> task.deadline
                            > (#[trigger] task.time_slots@[i]).end_time
                },
                Err(e) => task_verdict(
                    fresh_task(
                        title@,
                        description@,
                        priority,
                        deadline,
                        estimated_time,
                        time_slots@,
                        owner_id@,
                        ctx.now,
                    ),
                    *ctx,
                ) == Err::<(), TaskError>(e),
            },
    {
        let mut task = Self {
            id: make_entity_id("task", owner_id.as_str(), ctx.now),
            title,
            description,
            priority,
            deadline,
            estimated_time,
            reward_points: Self::calculate_reward_points(estimated_time, priority),
            time_slots,
            owner_id,
            state: TaskState::Created,
            parent_task_id: None,
            subtask_ids: Vec::new(),
        };
        assert(id_texts(task.subtask_ids@) =~= Seq::<Seq<char>>::empty());
        let ghost draft = task@;
        match task.validate(ctx) {
            Ok(_) => {
                proof {
                    lemma_validated_texts(draft, *ctx);
                }
                Ok(task)
            },
            Err(e) => Err(e),
        }
    }

    /// The points that a task of this estimated time and priority earns.
    pub fn calculate_reward_points(estimated_time: u32, priority: Priority) -> (points: u32)
        ensures
            points == reward_points_for(estimated_time, priority),
    {
        let base_points: u32 = if estimated_time % 30 >= 15 {
            (estimated_time / 30) + 1
        } else {
            estimated_time / 30
        };
        match priority {
            Priority::Low => base_points,
            Priority::Medium => base_points * 2,
            Priority::High => base_points * 3,
            Priority::Critical => base_points * 4,
        }
    }

    /// Holds the task against its rules in their fixed order and trims its
    /// title and description as far as they pass.
    pub fn validate(&mut self, ctx: &Context) -> (r: Result<(), TaskError>)
        ensures
            r == task_verdict(old(self)@, *ctx),
            final(self)@ == normalized(old(self)@),
    {
        match self.validate_title() {
            Ok(_) => {},
            Err(e) => {
                return Err(TaskError::Validation(e));
            },
        }
        match self.validate_description() {
            Ok(_) => {},
            Err(e) => {
                return Err(TaskError::Validation(e));
            },
        }
        match self.validate_deadline(ctx) {
            Ok(_) => {},
            Err(e) => {
                return Err(TaskError::Validation(e));
            },
        }
        match self.validate_estimated_time() {
            Ok(_) => {},
            Err(e) => {
                return Err(TaskError::Validation(e));
            },
        }
        match self.validate_timing() {
            Ok(_) => {},
            Err(e) => {
                return Err(TaskError::Validation(e));
            },
        }
        match self.validate_subtasks() {
            Ok(_) => {},
            Err(e) => {
                return Err(TaskError::Validation(e));
            },
        }
        match self.validate_storage(ctx) {
            Ok(_) => {},
            Err(e) => {
                return Err(TaskError::Storage(e));
            },
        }
        Ok(())
    }

    /// Moves the task into `new_state` where the transition is allowed,
    /// and leaves it as it is where not.
    pub fn transition_to(&mut self, new_state: TaskState, ctx: &Context) -> (r: Result<
        (),
        TaskError,
    >)
        ensures
            r == (if transition_allowed(old(self)@, new_state, ctx.now) {
                Ok::<(), TaskError>(())
            } else {
                Err(
                    TaskError::State(
                        TaskStateError::InvalidTransition { from: old(self)@.state, to: new_state },
                    ),
                )
            }),
            final(self)@ == (if r is Ok {
                TaskView { state: new_state, ..old(self)@ }
            } else {
                old(self)@
            }),
    {
        if new_state == TaskState::Completed && self.parent_task_id.is_some() {
            self.state = new_state;
            return Ok(());
        }
        let allowed = match (self.state, new_state) {
            (TaskState::Created, TaskState::InProgress) => true,
            (TaskState::InProgress, TaskState::Completed) => true,
            (TaskState::Created, TaskState::Overdue) => ctx.now > self.deadline,
            (TaskState::InProgress, TaskState::Overdue) => ctx.now > self.deadline,
            (TaskState::Overdue, TaskState::Completed) => true,
            _ => false,
        };
        if allowed {
            self.state = new_state;
            Ok(())
        } else {
            Err(TaskError::State(TaskStateError::InvalidTransition { from: self.state, to: new_state }))
        }
    }

    /// Adds a subtask's identifier, unless the task lists it already.
    pub fn add_subtask(&mut self, subtask_id: TaskId) -> (r: Result<(), TaskError>)
        ensures
            r == (if old(self)@.subtask_ids.contains(subtask_id@) {
                Err::<(), TaskError>(
                    TaskError::Validation(
                        TaskValidationError::Subtasks {
                            reason: SubtaskError::DuplicateId,
                            current_count: old(self)@.subtask_ids.len() as usize,
                        },
                    ),
                )
            } else {
                Ok(())
            }),
            final(self)@ == (if r is Ok {
                TaskView {
                    subtask_ids: old(self)@.subtask_ids.push(subtask_id@),
                    ..old(self)@
                }
            } else {
                old(self)@
            }),
    {
        if contains_id(&self.subtask_ids, &subtask_id) {
            return Err(
                TaskError::Validation(
                    TaskValidationError::Subtasks {
                        reason: SubtaskError::DuplicateId,
                        current_count: self.subtask_ids.len(),
                    },
                ),
            );
        }
        self.subtask_ids.push(subtask_id);
        assert(id_texts(self.subtask_ids@) =~= id_texts(old(self).subtask_ids@).push(subtask_id@));
        Ok(())
    }
}

} // verus!
