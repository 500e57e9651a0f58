//! The error that every operation of the engine reports, and how the
//! errors of the entities are carried into it.

use vstd::prelude::*;
use vstd::string::*;
use crate::models::reward::{
    RewardAction, RewardDescriptionError, RewardError, RewardState, RewardStateError,
    RewardTitleError, RewardValidationError,
};
use crate::models::task::{
    DeadlineError, DescriptionError, EstimatedTimeError, SubtaskError, TaskAction, TaskError,
    TaskState, TaskStateError, TaskValidationError, TimingError, TitleError,
};
use crate::models::time_slot::{TimeSlotError, TimeSlotRecurrenceError, TimeSlotValidationError};
use crate::models::traits::{OwnershipError, StorageError};
use crate::text::{decimal, decimal_text};

verus! {

/// The kinds of entity that are indexed by owner.
#[derive(Debug, Clone, Copy, PartialEq, Eq, Structural)]
pub enum IndexType {
    Task,
    Habit,
    Reward,
    TimeSlot,
}

#[derive(Debug, PartialEq, Eq)]
pub enum ContractError {
    /// The entity, what is wrong with it, and further detail.
    ValidationError(String, String, Option<String>),
    StorageError(StorageError),
    AccessError(OwnershipError),
    /// The entity, its state, what was attempted, and what is wrong.
    StateError(String, String, String, String),
    /// The entity and what was looked for.
    NotFound(String, String),
    Operation(String),
}

/// A `ContractError` as a mathematical value.
pub enum ErrorView {
    ValidationError(Seq<char>, Seq<char>, Option<Seq<char>>),
    StorageError(StorageError),
    AccessError(OwnershipError),
    StateError(Seq<char>, Seq<char>, Seq<char>, Seq<char>),
    NotFound(Seq<char>, Seq<char>),
    Operation(Seq<char>),
}

impl View for ContractError {
    type V = ErrorView;

    open spec fn view(&self) -> ErrorView {
        match self {
            ContractError::ValidationError(entity, message, details) => ErrorView::ValidationError(
                entity@,
                message@,
                match details {
                    Some(text) => Some(text@),
                    None => None,
                },
            ),
            ContractError::StorageError(e) => ErrorView::StorageError(*e),
            ContractError::AccessError(e) => ErrorView::AccessError(*e),
            ContractError::StateError(entity, state, action, message) => ErrorView::StateError(
                entity@,
                state@,
                action@,
                message@,
            ),
            ContractError::NotFound(entity, what) => ErrorView::NotFound(entity@, what@),
            ContractError::Operation(message) => ErrorView::Operation(message@),
        }
    }
}

/// The name of a task's state.
pub open spec fn task_state_name(state: TaskState) -> Seq<char> {
    match state {
        TaskState::Created => "Created"@,
        TaskState::InProgress => "InProgress"@,
        TaskState::Completed => "Completed"@,
        TaskState::Overdue => "Overdue"@,
    }
}

/// The name of a task's state.
pub fn task_state_label(state: TaskState) -> (name: &'static str)
    ensures
        name@ == task_state_name(state),
{
    match state {
        TaskState::Created => "Created",
        TaskState::InProgress => "InProgress",
        TaskState::Completed => "Completed",
        TaskState::Overdue => "Overdue",
    }
}

/// The name of an action on a task.
pub open spec fn task_action_name(action: TaskAction) -> Seq<char> {
    match action {
        TaskAction::Start => "Start"@,
        TaskAction::Complete => "Complete"@,
        TaskAction::Update => "Update"@,
        TaskAction::Delete => "Delete"@,
    }
}

/// The name of an action on a task.
pub fn task_action_label(action: TaskAction) -> (name: &'static str)
    ensures
        name@ == task_action_name(action),
{
    match action {
        TaskAction::Start => "Start",
        TaskAction::Complete => "Complete",
        TaskAction::Update => "Update",
        TaskAction::Delete => "Delete",
    }
}

/// The name of a reward's state.
pub open spec fn reward_state_name(state: RewardState) -> Seq<char> {
    match state {
        RewardState::Active => "Active"@,
        RewardState::Completed => "Completed"@,
    }
}

/// The name of a reward's state.
pub fn reward_state_label(state: RewardState) -> (name: &'static str)
    ensures
        name@ == reward_state_name(state),
{
    match state {
        RewardState::Active => "Active",
        RewardState::Completed => "Completed",
    }
}

/// The name of an action on a reward.
pub open spec fn reward_action_name(action: RewardAction) -> Seq<char> {
    match action {
        RewardAction::Complete => "Complete"@,
        RewardAction::Update => "Update"@,
        RewardAction::Delete => "Delete"@,
        RewardAction::View => "View"@,
    }
}

/// The name of an action on a reward.
pub fn reward_action_label(action: RewardAction) -> (name: &'static str)
    ensures
        name@ == reward_action_name(action),
{
    match action {
        RewardAction::Complete => "Complete",
        RewardAction::Update => "Update",
        RewardAction::Delete => "Delete",
        RewardAction::View => "View",
    }
}

/// A message of the form `<what> error: <reason> (<unit>: <number>)`.
pub open spec fn reason_message(
    what: Seq<char>,
    reason: Seq<char>,
    unit: Seq<char>,
    number: nat,
) -> Seq<char> {
    what + " error: "@ + reason + " ("@ + unit + ": "@ + decimal(number) + ")"@
}

/// A message of the form `<what> error: <reason> (<unit>: <number>)`.
pub fn reason_text(what: &str, reason: &str, unit: &str, number: u128) -> (message: String)
    ensures
        message@ == reason_message(what@, reason@, unit@, number as nat),
{
    let mut message = what.to_owned();
    message.append(" error: ");
    message.append(reason);
    message.append(" (");
    message.append(unit);
    message.append(": ");
    let digits = decimal_text(number);
    message.append(digits.as_str());
    message.append(")");
    message
}

/// What a task's validation error says in words.
pub open spec fn task_validation_message(e: TaskValidationError) -> Seq<char> {
    match e {
        TaskValidationError::Title { reason, current_length } => reason_message(
            "Title validation"@,
            match reason {
                TitleError::Empty => "Empty"@,
                TitleError::TooLong => "TooLong"@,
                TitleError::InvalidCharacters => "InvalidCharacters"@,
            },
            "length"@,
            current_length as nat,
        ),
        TaskValidationError::Description { reason, current_length } => reason_message(
            "Description validation"@,
            match reason {
                DescriptionError::TooLong => "TooLong"@,
                DescriptionError::InvalidCharacters => "InvalidCharacters"@,
            },
            "length"@,
            current_length as nat,
        ),
        TaskValidationError::Deadline { reason, provided_time } => reason_message(
            "Deadline validation"@,
            match reason {
                DeadlineError::PastDeadline => "PastDeadline"@,
                DeadlineError::TooFarInFuture => "TooFarInFuture"@,
                DeadlineError::BeforeEndTime => "BeforeEndTime"@,
            },
            "time"@,
            provided_time as nat,
        ),
        TaskValidationError::EstimatedTime {
            reason,
            provided_estimated_time,
        } => reason_message(
            "Estimated time validation"@,
            match reason {
                EstimatedTimeError::Zero => "Zero"@,
                EstimatedTimeError::TooLong => "TooLong"@,
                EstimatedTimeError::MissingEstimatedTime => "MissingEstimatedTime"@,
            },
            "time"@,
            provided_estimated_time as nat,
        ),
        TaskValidationError::Timing { reason, provided_time } => reason_message(
            "Timing validation"@,
            match reason {
                TimingError::EndBeforeStart => "EndBeforeStart"@,
                TimingError::OverlappingSlots => "OverlappingSlots"@,
            },
            "time"@,
            provided_time as nat,
        ),
        TaskValidationError::Subtasks { reason, current_count } => reason_message(
            "Subtasks validation"@,
            match reason {
                SubtaskError::DuplicateId => "DuplicateId"@,
                SubtaskError::CircularDependency => "CircularDependency"@,
            },
            "count"@,
            current_count as nat,
        ),
    }
}

/// What a task's validation error says in words.
pub fn task_validation_text(e: TaskValidationError) -> (message: String)
    ensures
        message@ == task_validation_message(e),
{
    match e {
        TaskValidationError::Title { reason, current_length } => reason_text(
            "Title validation",
            match reason {
                TitleError::Empty => "Empty",
                TitleError::TooLong => "TooLong",
                TitleError::InvalidCharacters => "InvalidCharacters",
            },
            "length",
            current_length as u128,
        ),
        TaskValidationError::Description { reason, current_length } => reason_text(
            "Description validation",
            match reason {
                DescriptionError::TooLong => "TooLong",
                DescriptionError::InvalidCharacters => "InvalidCharacters",
            },
            "length",
            current_length as u128,
        ),
        TaskValidationError::Deadline { reason, provided_time } => reason_text(
            "Deadline validation",
            match reason {
                DeadlineError::PastDeadline => "PastDeadline",
                DeadlineError::TooFarInFuture => "TooFarInFuture",
                DeadlineError::BeforeEndTime => "BeforeEndTime",
            },
            "time",
            provided_time as u128,
        ),
        TaskValidationError::EstimatedTime { reason, provided_estimated_time } => reason_text(
            "Estimated time validation",
            match reason {
                EstimatedTimeError::Zero => "Zero",
                EstimatedTimeError::TooLong => "TooLong",
                EstimatedTimeError::MissingEstimatedTime => "MissingEstimatedTime",
            },
            "time",
            provided_estimated_time as u128,
        ),
        TaskValidationError::Timing { reason, provided_time } => reason_text(
            "Timing validation",
            match reason {
                TimingError::EndBeforeStart => "EndBeforeStart",
                TimingError::OverlappingSlots => "OverlappingSlots",
            },
            "time",
            provided_time as u128,
        ),
        TaskValidationError::Subtasks { reason, current_count } => reason_text(
            "Subtasks validation",
            match reason {
                SubtaskError::DuplicateId => "DuplicateId",
                SubtaskError::CircularDependency => "CircularDependency",
            },
            "count",
            current_count as u128,
        ),
    }
}

/// What a reward's validation error says in words.
pub open spec fn reward_validation_message(e: RewardValidationError) -> Seq<char> {
    match e {
        RewardValidationError::Title { reason, current_length } => reason_message(
            "Title"@,
            match reason {
                RewardTitleError::Empty => "Empty"@,
                RewardTitleError::TooLong => "TooLong"@,
                RewardTitleError::InvalidCharacters => "InvalidCharacters"@,
            },
            "length"@,
            current_length as nat,
        ),
        RewardValidationError::Description { reason, current_length } => reason_message(
            "Description"@,
            match reason {
                RewardDescriptionError::TooLong => "TooLong"@,
                RewardDescriptionError::InvalidCharacters => "InvalidCharacters"@,
            },
            "length"@,
            current_length as nat,
        ),
        RewardValidationError::Cost { reason, provided_cost } => reason_message(
            "Cost"@,
            "Invalid"@,
            "cost"@,
            provided_cost as nat,
        ),
    }
}

/// What a reward's validation error says in words.
pub fn reward_validation_text(e: RewardValidationError) -> (message: String)
    ensures
        message@ == reward_validation_message(e),
{
    match e {
        RewardValidationError::Title { reason, current_length } => reason_text(
            "Title",
            match reason {
                RewardTitleError::Empty => "Empty",
                RewardTitleError::TooLong => "TooLong",
                RewardTitleError::InvalidCharacters => "InvalidCharacters",
            },
            "length",
            current_length as u128,
        ),
        RewardValidationError::Description { reason, current_length } => reason_text(
            "Description",
            match reason {
                RewardDescriptionError::TooLong => "TooLong",
                RewardDescriptionError::InvalidCharacters => "InvalidCharacters",
            },
            "length",
            current_length as u128,
        ),
        RewardValidationError::Cost { reason, provided_cost } => reason_text(
            "Cost",
            "Invalid",
            "cost",
            provided_cost as u128,
        ),
    }
}

/// What a time slot's validation error says in words.
pub open spec fn time_slot_validation_message(e: TimeSlotValidationError) -> Seq<char> {
    match e {
        TimeSlotValidationError::Timing { reason, start_minutes, end_minutes } =>
            "Timing error: InvalidTimeOfDay (start: "@ + decimal(start_minutes as nat) + ", end: "@
                + decimal(end_minutes as nat) + ")"@,
        TimeSlotValidationError::Recurrence(reason) => "Recurrence error: "@ + (match reason {
            TimeSlotRecurrenceError::EmptyDays => "EmptyDays"@,
            TimeSlotRecurrenceError::InvalidPattern => "InvalidPattern"@,
        }),
    }
}

/// What a time slot's validation error says in words.
pub fn time_slot_validation_text(e: TimeSlotValidationError) -> (message: String)
    ensures
        message@ == time_slot_validation_message(e),
{
    match e {
        TimeSlotValidationError::Timing { reason, start_minutes, end_minutes } => {
            let mut message = "Timing error: InvalidTimeOfDay (start: ".to_owned();
            let start = decimal_text(start_minutes as u128);
            message.append(start.as_str());
            message.append(", end: ");
            let end = decimal_text(end_minutes as u128);
            message.append(end.as_str());
            message.append(")");
            message
        },
        TimeSlotValidationError::Recurrence(reason) => {
            let mut message = "Recurrence error: ".to_owned();
            message.append(
                match reason {
                    TimeSlotRecurrenceError::EmptyDays => "EmptyDays",
                    TimeSlotRecurrenceError::InvalidPattern => "InvalidPattern",
                },
            );
            message
        },
    }
}

/// The error for a broken rule of validation on the named entity.
pub open spec fn validation_error(entity: Seq<char>, message: Seq<char>) -> ErrorView {
    ErrorView::ValidationError(entity, message, None)
}

/// The error for a transition that an entity's state does not allow.
pub open spec fn transition_error(entity: Seq<char>, from: Seq<char>, to: Seq<char>) -> ErrorView {
    ErrorView::StateError(entity, from, "transition to "@ + to, "Invalid state transition"@)
}

/// The error for an action that an entity's state does not allow.
pub open spec fn action_error(entity: Seq<char>, state: Seq<char>, action: Seq<char>) -> ErrorView {
    ErrorView::StateError(entity, state, action, "Invalid action for current state"@)
}

/// A task's state error as the engine reports it.
pub open spec fn task_state_error_view(e: TaskStateError) -> ErrorView {
    match e {
        TaskStateError::InvalidTransition { from, to } => transition_error(
            "Task"@,
            task_state_name(from),
            task_state_name(to),
        ),
        TaskStateError::InvalidActionForState { state, action } => action_error(
            "Task"@,
            task_state_name(state),
            task_action_name(action),
        ),
    }
}

/// A task's error as the engine reports it.
pub open spec fn task_error_view(e: TaskError) -> ErrorView {
    match e {
        TaskError::Validation(e) => validation_error("Task"@, task_validation_message(e)),
        TaskError::Storage(e) => ErrorView::StorageError(e),
        TaskError::Access(e) => ErrorView::AccessError(e),
        TaskError::State(e) => task_state_error_view(e),
    }
}

/// A reward's state error as the engine reports it.
pub open spec fn reward_state_error_view(e: RewardStateError) -> ErrorView {
    match e {
        RewardStateError::InvalidTransition { from, to } => transition_error(
            "Reward"@,
            reward_state_name(from),
            reward_state_name(to),
        ),
        RewardStateError::InvalidActionForState { state, action } => action_error(
            "Reward"@,
            reward_state_name(state),
            reward_action_name(action),
        ),
    }
}

/// A reward's error as the engine reports it.
pub open spec fn reward_error_view(e: RewardError) -> ErrorView {
    match e {
        RewardError::Validation(e) => validation_error("Reward"@, reward_validation_message(e)),
        RewardError::Storage(e) => ErrorView::StorageError(e),
        RewardError::Access(e) => ErrorView::AccessError(e),
        RewardError::State(e) => reward_state_error_view(e),
    }
}

/// A time slot's error as the engine reports it.
pub open spec fn time_slot_error_view(e: TimeSlotError) -> ErrorView {
    match e {
        TimeSlotError::Validation(e) => validation_error(
            "TimeSlot"@,
            time_slot_validation_message(e),
        ),
        TimeSlotError::Storage(e) => ErrorView::StorageError(e),
        TimeSlotError::Access(e) => ErrorView::AccessError(e),
    }
}

/// The error for an entity that is not there: the entity, and a message
/// that names what was looked for between two fixed parts.
pub open spec fn missing_error(
    entity: Seq<char>,
    before: Seq<char>,
    name: Seq<char>,
    after: Seq<char>,
) -> ErrorView {
    ErrorView::NotFound(entity, before + name + after)
}

/// The error for a failed operation, with a message that ends in a name.
pub open spec fn operation_error(message: Seq<char>, name: Seq<char>) -> ErrorView {
    ErrorView::Operation(message + name)
}

/// The text `transition to <state>`.
fn transition_text(to: &str) -> (text: String)
    ensures
        text@ == "transition to "@ + to@,
{
    let mut text = "transition to ".to_owned();
    text.append(to);
    text
}

impl ContractError {
    /// The error for a broken rule of validation on the named entity.
    pub fn validation(entity: &str, message: String) -> (e: ContractError)
        ensures
            e@ == validation_error(entity@, message@),
    {
        ContractError::ValidationError(entity.to_owned(), message, None)
    }

    /// The error for an entity that is not there.
    pub fn not_found(entity: &str, what: String) -> (e: ContractError)
        ensures
            e@ == ErrorView::NotFound(entity@, what@),
    {
        ContractError::NotFound(entity.to_owned(), what)
    }

    /// The error for an entity that is not there, with a message that names
    /// what was looked for between two fixed parts.
    pub fn missing(entity: &str, before: &str, name: &str, after: &str) -> (e: ContractError)
        ensures
            e@ == missing_error(entity@, before@, name@, after@),
    {
        let mut message = before.to_owned();
        message.append(name);
        message.append(after);
        ContractError::NotFound(entity.to_owned(), message)
    }

    /// The error for a failed operation, with a message that ends in a name.
    pub fn operation(message: &str, name: &str) -> (e: ContractError)
        ensures
            e@ == operation_error(message@, name@),
    {
        let mut text = message.to_owned();
        text.append(name);
        ContractError::Operation(text)
    }

    /// A task's validation error as the engine reports it.
    pub fn from_task_validation(err: TaskValidationError) -> (e: ContractError)
        ensures
            e@ == validation_error("Task"@, task_validation_message(err)),
    {
        ContractError::validation("Task", task_validation_text(err))
    }

    /// A task's state error as the engine reports it.
    pub fn from_task_state(err: TaskStateError) -> (e: ContractError)
        ensures
            e@ == task_state_error_view(err),
    {
        match err {
            TaskStateError::InvalidTransition { from, to } => ContractError::StateError(
                "Task".to_owned(),
                task_state_label(from).to_owned(),
                transition_text(task_state_label(to)),
                "Invalid state transition".to_owned(),
            ),
            TaskStateError::InvalidActionForState { state, action } => ContractError::StateError(
                "Task".to_owned(),
                task_state_label(state).to_owned(),
                task_action_label(action).to_owned(),
                "Invalid action for current state".to_owned(),
            ),
        }
    }

    /// A task's error as the engine reports it.
    pub fn from_task(err: TaskError) -> (e: ContractError)
        ensures
            e@ == task_error_view(err),
    {
        match err {
            TaskError::Validation(err) => ContractError::from_task_validation(err),
            TaskError::Storage(err) => ContractError::StorageError(err),
            TaskError::Access(err) => ContractError::AccessError(err),
            TaskError::State(err) => ContractError::from_task_state(err),
        }
    }

    /// A reward's validation error as the engine reports it.
    pub fn from_reward_validation(err: RewardValidationError) -> (e: ContractError)
        ensures
            e@ == validation_error("Reward"@, reward_validation_message(err)),
    {
        ContractError::validation("Reward", reward_validation_text(err))
    }

    /// A reward's state error as the engine reports it.
    pub fn from_reward_state(err: RewardStateError) -> (e: ContractError)
        ensures
            e@ == reward_state_error_view(err),
    {
        match err {
            RewardStateError::InvalidTransition { from, to } => ContractError::StateError(
                "Reward".to_owned(),
                reward_state_label(from).to_owned(),
                transition_text(reward_state_label(to)),
                "Invalid state transition".to_owned(),
            ),
            RewardStateError::InvalidActionForState { state, action } => ContractError::StateError(
                "Reward".to_owned(),
                reward_state_label(state).to_owned(),
                reward_action_label(action).to_owned(),
                "Invalid action for current state".to_owned(),
            ),
        }
    }

    /// A reward's error as the engine reports it.
    pub fn from_reward(err: RewardError) -> (e: ContractError)
        ensures
            e@ == reward_error_view(err),
    {
        match err {
            RewardError::Validation(err) => ContractError::from_reward_validation(err),
            RewardError::Storage(err) => ContractError::StorageError(err),
            RewardError::Access(err) => ContractError::AccessError(err),
            RewardError::State(err) => ContractError::from_reward_state(err),
        }
    }

    /// A time slot's validation error as the engine reports it.
    pub fn from_time_slot_validation(err: TimeSlotValidationError) -> (e: ContractError)
        ensures
            e@ == validation_error("TimeSlot"@, time_slot_validation_message(err)),
    {
        ContractError::validation("TimeSlot", time_slot_validation_text(err))
    }

    /// A time slot's error as the engine reports it.
    pub fn from_time_slot(err: TimeSlotError) -> (e: ContractError)
        ensures
            e@ == time_slot_error_view(err),
    {
        match err {
            TimeSlotError::Validation(err) => ContractError::from_time_slot_validation(err),
            TimeSlotError::Storage(err) => ContractError::StorageError(err),
            TimeSlotError::Access(err) => ContractError::AccessError(err),
        }
    }
}

impl From<StorageError> for ContractError {
    fn from(err: StorageError) -> (e: ContractError) {
        ContractError::StorageError(err)
    }
}

impl vstd::std_specs::convert::FromSpecImpl<StorageError> for ContractError {
    open spec fn obeys_from_spec() -> bool {
        true
    }

    open spec fn from_spec(err: StorageError) -> ContractError {
        ContractError::StorageError(err)
    }
}

impl From<OwnershipError> for ContractError {
    fn from(err: OwnershipError) -> (e: ContractError) {
        ContractError::AccessError(err)
    }
}

impl vstd::std_specs::convert::FromSpecImpl<OwnershipError> for ContractError {
    open spec fn obeys_from_spec() -> bool {
        true
    }

    open spec fn from_spec(err: OwnershipError) -> ContractError {
        ContractError::AccessError(err)
    }
}

} // verus!
