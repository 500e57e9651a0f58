//! The entities of the engine and the rules each one keeps.

pub mod config;
pub mod habit;
pub mod reward;
pub mod task;
pub mod time_slot;
pub mod traits;

pub use habit::{Habit, HabitId};
pub use reward::{Reward, RewardError, RewardId, RewardState, RewardStateError, RewardValidationError};
pub use task::{
    Priority, Task, TaskError, TaskId, TaskState, TaskStateError, TaskTimeSlot, TaskValidationError,
};
pub use time_slot::{
    DayOfWeek, Frequency, RecurrencePattern, SlotType, TimeSlot, TimeSlotError, TimeSlotId,
    TimeSlotValidationError,
};
pub use traits::{Ownable, OwnershipError, Storable, StorageError, StorageMetrics};
