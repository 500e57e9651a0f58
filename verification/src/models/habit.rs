//! Habits: tasks that recur, and the streak of their completions.

use vstd::prelude::*;
use crate::context::Context;
use crate::models::config::{DAY_NANOS, HABIT_BASE_STORAGE, HABIT_MAX_STORAGE};
use crate::models::task::TaskId;
use crate::models::time_slot::{
    day_at, has_day, weekday, DayOfWeek, Frequency, RecurrencePattern, RecurrenceView,
};
use crate::models::traits::{
    add_bytes, build_metrics, clamp_u64, quota_verdict, Ownable, Storable, StorageError,
    StorageMetrics,
};
use crate::registry::Entity;
use crate::text::{byte_len, entity_id, make_entity_id, text_bytes};

verus! {

pub type HabitId = String;

#[derive(Debug, PartialEq, Eq)]
pub struct Habit {
    pub id: HabitId,
    /// The task that recurs.
    pub task_id: TaskId,
    pub recurrence: RecurrencePattern,
    /// How many completions in a row came in time.
    pub streak: u32,
    /// The time of the last completion, 0 where there was none.
    pub last_completed: u64,
    pub owner_id: String,
}

/// A habit as a mathematical value.
pub struct HabitView {
    pub id: Seq<char>,
    pub task_id: Seq<char>,
    pub recurrence: RecurrenceView,
    pub streak: u32,
    pub last_completed: u64,
    pub owner_id: Seq<char>,
}

impl View for Habit {
    type V = HabitView;

    open spec fn view(&self) -> HabitView {
        HabitView {
            id: self.id@,
            task_id: self.task_id@,
            recurrence: self.recurrence@,
            streak: self.streak,
            last_completed: self.last_completed,
            owner_id: self.owner_id@,
        }
    }
}

/// The number of whole days from the epoch to a time in nanoseconds.
pub open spec fn day_number(time: u64) -> int {
    time as int / DAY_NANOS as int
}

/// The index of the day of the week on which a time falls, Monday being 0.
/// The epoch fell on a Thursday.
pub open spec fn weekday_index(time: u64) -> int {
    (day_number(time) + 3) % 7
}

/// The days in a pattern's interval: one where it names none.
pub open spec fn interval_days(pattern: RecurrenceView) -> int {
    match pattern.interval {
        Some(interval) => interval as int,
        None => 1,
    }
}

/// Whether a completion at `now` continues the streak. A first completion
/// always does. A daily habit continues where no more than its interval
/// has passed since the last completion. A custom habit continues where
/// today is one of its days and the last completion lies no more than
/// seven days back; one that names no days never continues.
pub open spec fn streak_continues(last_completed: u64, pattern: RecurrenceView, now: u64) -> bool {
    if last_completed == 0 {
        true
    } else {
        match pattern.frequency {
            Frequency::Daily => now - last_completed <= interval_days(pattern) * DAY_NANOS,
            Frequency::Custom => match pattern.specific_days {
                Some(days) => days.contains(day_at(weekday_index(now))) && day_number(now)
                    - day_number(last_completed) <= 7,
                None => false,
            },
        }
    }
}

/// The first number of days from `from` up to seven after which the day
/// of the week is one of `days`, counting from the day with index `today`;
/// seven where there is none.
pub open spec fn days_until_next(days: Seq<DayOfWeek>, today: int, from: int) -> int
    decreases 8 - from,
{
    if from < 1 || from >= 7 {
        7
    } else if days.contains(day_at((today + from) % 7)) {
        from
    } else {
        days_until_next(days, today, from + 1)
    }
}

/// The deadline of the next recurrence after a completion at `now`: for a
/// daily pattern its interval later, for a custom one on the nearest of
/// its days after today, or a week later where it names no days.
pub open spec fn next_deadline(pattern: RecurrenceView, now: u64) -> int {
    match pattern.frequency {
        Frequency::Daily => now + interval_days(pattern) * DAY_NANOS,
        Frequency::Custom => match pattern.specific_days {
            Some(days) => now + days_until_next(days, weekday_index(now), 1) * DAY_NANOS,
            None => now + 7 * DAY_NANOS,
        },
    }
}

/// The next day of a custom pattern is between one and seven days ahead.
pub proof fn lemma_days_until_next(days: Seq<DayOfWeek>, today: int, from: int)
    requires
        1 <= from,
    ensures
        from <= days_until_next(days, today, from) || days_until_next(days, today, from) == 7,
        1 <= days_until_next(days, today, from) <= 7 || from > 7,
    decreases 8 - from,
{
    if from < 7 && !days.contains(day_at((today + from) % 7)) {
        lemma_days_until_next(days, today, from + 1);
    }
}

/// The next deadline is never before the completion.
pub proof fn lemma_next_deadline_ahead(pattern: RecurrenceView, now: u64)
    ensures
        next_deadline(pattern, now) >= now,
{
    match pattern.frequency {
        Frequency::Daily => {
            assert(interval_days(pattern) * DAY_NANOS >= 0) by (nonlinear_arith)
                requires
                    interval_days(pattern) >= 0,
            ;
        },
        Frequency::Custom => {
            if let Some(days) = pattern.specific_days {
                lemma_days_until_next(days, weekday_index(now), 1);
                let ahead = days_until_next(days, weekday_index(now), 1);
                assert(ahead * DAY_NANOS >= 0) by (nonlinear_arith)
                    requires
                        ahead >= 1,
                ;
            }
        },
    }
}

/// The bytes in a habit's fields of variable length: its identifier, its
/// task's identifier, its owner, and one byte for each day that its
/// pattern names.
pub open spec fn habit_dynamic_bytes(habit: HabitView) -> nat {
    byte_len(habit.id) + byte_len(habit.task_id) + byte_len(habit.owner_id) + (
    match habit.recurrence.specific_days {
        Some(days) => days.len(),
        None => 0,
    })
}

/// What the quota says of a habit.
pub open spec fn habit_quota_verdict(habit: HabitView, ctx: Context) -> Result<(), StorageError> {
    quota_verdict(
        HABIT_BASE_STORAGE + habit_dynamic_bytes(habit),
        HABIT_MAX_STORAGE,
        ctx.byte_cost,
        ctx.balance,
    )
}

/// The habit that `Habit::new` makes of its arguments at the time `now`.
pub open spec fn fresh_habit(
    task_id: Seq<char>,
    recurrence: RecurrenceView,
    owner: Seq<char>,
    now: u64,
) -> HabitView {
    HabitView {
        id: entity_id("habit"@, owner, now),
        task_id,
        recurrence,
        streak: 0,
        last_completed: 0,
        owner_id: owner,
    }
}

/// The index of the day of the week on which `time` falls.
pub fn weekday_of(time: u64) -> (index: u8)
    ensures
        index == weekday_index(time),
        index < 7,
{
    let days: u64 = time / DAY_NANOS;
    ((days + 3) % 7) as u8
}

/// When the task of a habit with this pattern is next due after a
/// completion at `now`, unless that time is beyond the largest `u64`.
pub fn compute_next_deadline(pattern: &RecurrencePattern, now: u64) -> (deadline: Option<u64>)
    ensures
        deadline == (if next_deadline(pattern@, now) <= u64::MAX {
            Some(next_deadline(pattern@, now) as u64)
        } else {
            None
        }),
{
    let days_ahead: u64 = match pattern.frequency {
        Frequency::Daily => match pattern.interval {
            Some(interval) => interval as u64,
            None => 1,
        },
        Frequency::Custom => match &pattern.specific_days {
            Some(days) => {
                let today = weekday_of(now);
                let mut offset: u8 = 1;
                let mut found: bool = false;
                while offset < 7 && !found
                    invariant
                        1 <= offset <= 7,
                        today < 7,
                        days_until_next(days@, today as int, 1) == (if found {
                            offset as int
                        } else {
                            days_until_next(days@, today as int, offset as int)
                        }),
                    decreases 8 - offset - (if found { 1int } else { 0int }),
                {
                    if has_day(days, weekday((today + offset) % 7)) {
                        found = true;
                    } else {
                        offset += 1;
                    }
                }
                offset as u64
            },
            None => 7,
        },
    };
    assert(days_ahead * DAY_NANOS <= u32::MAX * DAY_NANOS) by (nonlinear_arith)
        requires
            days_ahead <= u32::MAX,
    ;
    let total: u128 = (now as u128) + (days_ahead as u128) * (DAY_NANOS as u128);
    if total > u64::MAX as u128 {
        None
    } else {
        Some(total as u64)
    }
}

impl Ownable for Habit {
    open spec fn owner(&self) -> Seq<char> {
        self.owner_id@
    }

    fn get_owner_id(&self) -> (owner: &String) {
        &self.owner_id
    }
}

impl Entity for Habit {
    open spec fn kind() -> Seq<char> {
        "habit"@
    }

    open spec fn key(&self) -> Seq<char> {
        self.id@
    }

    fn get_id(&self) -> (id: &String) {
        &self.id
    }

    fn kind_name() -> (name: &'static str) {
        "habit"
    }
}

impl Storable for Habit {
    const BASE_STORAGE: u64 = HABIT_BASE_STORAGE;

    const MAX_STORAGE: u64 = HABIT_MAX_STORAGE;

    open spec fn dynamic_bytes(&self) -> nat {
        habit_dynamic_bytes(self@)
    }

    fn calculate_storage_metrics(&self, ctx: &Context) -> (m: StorageMetrics) {
        let mut dynamic_size: u64 = add_bytes(0, text_bytes(&self.id));
        dynamic_size = add_bytes(dynamic_size, text_bytes(&self.task_id));
        dynamic_size = add_bytes(dynamic_size, text_bytes(&self.owner_id));
        match &self.recurrence.specific_days {
            Some(days) => {
                dynamic_size = add_bytes(dynamic_size, days.len());
            },
            None => {},
        }
        assert(dynamic_size == clamp_u64(habit_dynamic_bytes(self@) as int));
        build_metrics(HABIT_BASE_STORAGE, dynamic_size, ctx.byte_cost)
    }

    proof fn budget_is_bounded() {
    }
}

impl Clone for Habit {
    fn clone(&self) -> (copy: Self)
        ensures
            copy@ == self@,
    {
        Habit {
            id: self.id.clone(),
            task_id: self.task_id.clone(),
            recurrence: self.recurrence.clone(),
            streak: self.streak,
            last_completed: self.last_completed,
            owner_id: self.owner_id.clone(),
        }
    }
}

impl Habit {
    /// A habit for `owner_id` on the task `task_id`, made at the time of
    /// the call with no streak, and accepted only where the quota passes.
    pub fn new(task_id: TaskId, recurrence: RecurrencePattern, owner_id: String, ctx: &Context) -> (r:
        Result<Self, StorageError>)
        ensures
            match r {
                Ok(habit) => habit@ == fresh_habit(task_id@, recurrence@, owner_id@, ctx.now)
                    && habit_quota_verdict(
                    fresh_habit(task_id@, recurrence@, owner_id@, ctx.now),
                    *ctx,
                ) is Ok,
                Err(e) => habit_quota_verdict(
                    fresh_habit(task_id@, recurrence@, owner_id@, ctx.now),
                    *ctx,
                ) == Err::<(), StorageError>(e),
            },
    {
        let mut habit = Self {
            id: make_entity_id("habit", owner_id.as_str(), ctx.now),
            task_id,
            recurrence,
            owner_id,
            streak: 0,
            last_completed: 0,
        };
        match habit.validate_storage(ctx) {
            Ok(_) => Ok(habit),
            Err(e) => Err(e),
        }
    }

    /// Counts a completion at the time of the call into the streak.
    pub fn increment_streak(&mut self, ctx: &Context) -> (streak: u32)
        requires
            old(self).streak < u32::MAX,
        ensures
            streak == old(self).streak + 1,
            final(self)@ == (HabitView {
                streak: (old(self).streak + 1) as u32,
                last_completed: ctx.now,
                ..old(self)@
            }),
    {
        self.streak += 1;
        self.last_completed = ctx.now;
        self.streak
    }

    /// Begins the streak anew with a completion at the time of the call.
    pub fn reset_streak(&mut self, ctx: &Context)
        ensures
            final(self)@ == (HabitView { streak: 0, last_completed: ctx.now, ..old(self)@ }),
    {
        self.streak = 0;
        self.last_completed = ctx.now;
    }

    /// Whether a completion at the time of the call continues the streak.
    pub fn verify_streak_continuity(&self, ctx: &Context) -> (continues: bool)
        ensures
            continues == streak_continues(self.last_completed, self.recurrence@, ctx.now),
    {
        if self.last_completed == 0 {
            return true;
        }
        match self.recurrence.frequency {
            Frequency::Daily => {
                if ctx.now <= self.last_completed {
                    return true;
                }
                let time_diff: u128 = (ctx.now - self.last_completed) as u128;
                let interval: u128 = match self.recurrence.interval {
                    Some(interval) => interval as u128,
                    None => 1,
                };
                assert(interval * DAY_NANOS <= u32::MAX * DAY_NANOS) by (nonlinear_arith)
                    requires
                        interval <= u32::MAX,
                ;
                let allowed_time: u128 = interval * (DAY_NANOS as u128);
                time_diff <= allowed_time
            },
            Frequency::Custom => {
                match &self.recurrence.specific_days {
                    Some(days) => {
                        let last_completed_days: u64 = self.last_completed / DAY_NANOS;
                        let current_days: u64 = ctx.now / DAY_NANOS;
                        let today = weekday(weekday_of(ctx.now));
                        has_day(days, today) && (current_days <= last_completed_days
                            || current_days - last_completed_days <= 7)
                    },
                    None => false,
                }
            },
        }
    }
}

} // verus!
