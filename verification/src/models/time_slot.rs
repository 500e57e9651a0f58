//! Daily time slots and the patterns by which they recur.

use vstd::prelude::*;
use crate::context::Context;
use crate::models::config::{MAX_MINUTES, TIME_SLOT_BASE_STORAGE, TIME_SLOT_MAX_STORAGE};
use crate::models::traits::{
    add_bytes, build_metrics, clamp_u64, quota_verdict, Ownable, OwnershipError, Storable,
    StorageError, StorageMetrics,
};
use crate::registry::Entity;
use crate::text::{byte_len, entity_id, make_entity_id, text_bytes};

verus! {

pub type TimeSlotId = String;

#[derive(Debug, Clone, Copy, PartialEq, Eq, Structural)]
pub enum TimeSlotError {
    Validation(TimeSlotValidationError),
    Storage(StorageError),
    Access(OwnershipError),
}

#[derive(Debug, Clone, Copy, PartialEq, Eq, Structural)]
pub enum TimeSlotValidationError {
    Timing { reason: TimeSlotTimingError, start_minutes: u32, end_minutes: u32 },
    Recurrence(TimeSlotRecurrenceError),
}

#[derive(Debug, Clone, Copy, PartialEq, Eq, Structural)]
pub enum TimeSlotTimingError {
    InvalidTimeOfDay,
}

#[derive(Debug, Clone, Copy, PartialEq, Eq, Structural)]
pub enum TimeSlotRecurrenceError {
    EmptyDays,
    InvalidPattern,
}

#[derive(Debug, Clone, Copy, PartialEq, Eq, Structural)]
pub enum SlotType {
    Break,
    WorkingHours,
}

#[derive(Debug, Clone, Copy, PartialEq, Eq, Structural)]
pub enum Frequency {
    Daily,
    Custom,
}

#[derive(Debug, Clone, Copy, PartialEq, Eq, Structural, Hash, PartialOrd, Ord)]
pub enum DayOfWeek {
    Monday,
    Tuesday,
    Wednesday,
    Thursday,
    Friday,
    Saturday,
    Sunday,
}

/// How an entity recurs: every so many days, or on chosen days of the week.
#[derive(Debug, PartialEq, Eq)]
pub struct RecurrencePattern {
    pub frequency: Frequency,
    pub interval: Option<u32>,
    pub specific_days: Option<Vec<DayOfWeek>>,
}

/// A recurrence pattern as a mathematical value.
pub struct RecurrenceView {
    pub frequency: Frequency,
    pub interval: Option<u32>,
    pub specific_days: Option<Seq<DayOfWeek>>,
}

impl View for RecurrencePattern {
    type V = RecurrenceView;

    open spec fn view(&self) -> RecurrenceView {
        RecurrenceView {
            frequency: self.frequency,
            interval: self.interval,
            specific_days: match self.specific_days {
                Some(days) => Some(days@),
                None => None,
            },
        }
    }
}

/// The day of the week with the given index, Monday being 0.
pub open spec fn day_at(index: int) -> DayOfWeek {
    if index == 0 {
        DayOfWeek::Monday
    } else if index == 1 {
        DayOfWeek::Tuesday
    } else if index == 2 {
        DayOfWeek::Wednesday
    } else if index == 3 {
        DayOfWeek::Thursday
    } else if index == 4 {
        DayOfWeek::Friday
    } else if index == 5 {
        DayOfWeek::Saturday
    } else {
        DayOfWeek::Sunday
    }
}

/// The index of a day of the week, Monday being 0.
pub open spec fn day_index(day: DayOfWeek) -> int {
    match day {
        DayOfWeek::Monday => 0,
        DayOfWeek::Tuesday => 1,
        DayOfWeek::Wednesday => 2,
        DayOfWeek::Thursday => 3,
        DayOfWeek::Friday => 4,
        DayOfWeek::Saturday => 5,
        DayOfWeek::Sunday => 6,
    }
}

/// The first `count` days of the week that occur in `days`, in the order
/// of the week.
pub open spec fn chosen_days(days: Seq<DayOfWeek>, count: nat) -> Seq<DayOfWeek>
    decreases count,
{
    if count == 0 {
        Seq::empty()
    } else {
        let earlier = chosen_days(days, (count - 1) as nat);
        if days.contains(day_at(count - 1)) {
            earlier.push(day_at(count - 1))
        } else {
            earlier
        }
    }
}

/// The days of `days`, each once, in the order of the week.
pub open spec fn distinct_sorted_days(days: Seq<DayOfWeek>) -> Seq<DayOfWeek> {
    chosen_days(days, 7)
}

/// The chosen days stand in the order of the week, each once, and are
/// exactly the given days among the first `count` of the week.
pub proof fn lemma_chosen_days(days: Seq<DayOfWeek>, count: nat)
    requires
        count <= 7,
    ensures
        forall|i: int, j: int|
            0 <= i < j < chosen_days(days, count).len() ==> day_index(
                #[trigger] chosen_days(days, count)[i],
            ) < day_index(#[trigger] chosen_days(days, count)[j]),
        forall|i: int|
            0 <= i < chosen_days(days, count).len() ==> day_index(
                #[trigger] chosen_days(days, count)[i],
            ) < count,
        forall|day: DayOfWeek| #[trigger]
            chosen_days(days, count).contains(day) <==> days.contains(day) && day_index(day)
                < count,
    decreases count,
{
    if count > 0 {
        let earlier = chosen_days(days, (count - 1) as nat);
        let next = day_at(count - 1);
        lemma_chosen_days(days, (count - 1) as nat);
        assert(day_index(next) == count - 1);
        let chosen = chosen_days(days, count);
        assert forall|day: DayOfWeek| #[trigger]
            chosen.contains(day) <==> days.contains(day) && day_index(day) < count by {
            assert(day_at(day_index(day)) == day);
            if days.contains(next) {
                assert(chosen == earlier.push(next));
                assert(chosen[earlier.len() as int] == next);
                if chosen.contains(day) {
                    let k = choose|k: int| 0 <= k < chosen.len() && chosen[k] == day;
                    if k < earlier.len() {
                        assert(earlier[k] == day);
                    }
                }
                if earlier.contains(day) {
                    let k = choose|k: int| 0 <= k < earlier.len() && earlier[k] == day;
                    assert(chosen[k] == day);
                }
            }
        }
    }
}

/// The days of a custom pattern stand in the order of the week, each
/// once, and are exactly the given days.
pub proof fn lemma_distinct_sorted_days(days: Seq<DayOfWeek>)
    ensures
        forall|i: int, j: int|
            0 <= i < j < distinct_sorted_days(days).len() ==> day_index(
                #[trigger] distinct_sorted_days(days)[i],
            ) < day_index(#[trigger] distinct_sorted_days(days)[j]),
        forall|day: DayOfWeek| #[trigger]
            distinct_sorted_days(days).contains(day) <==> days.contains(day),
        days.len() > 0 ==> distinct_sorted_days(days).len() > 0,
{
    lemma_chosen_days(days, 7);
    if days.len() > 0 {
        assert(days.contains(days[0]));
        assert(distinct_sorted_days(days).contains(days[0]));
    }
}

/// The day of the week with the given index, Monday being 0.
pub fn weekday(index: u8) -> (day: DayOfWeek)
    requires
        index < 7,
    ensures
        day == day_at(index as int),
        day_index(day) == index,
{
    match index {
        0 => DayOfWeek::Monday,
        1 => DayOfWeek::Tuesday,
        2 => DayOfWeek::Wednesday,
        3 => DayOfWeek::Thursday,
        4 => DayOfWeek::Friday,
        5 => DayOfWeek::Saturday,
        _ => DayOfWeek::Sunday,
    }
}

/// Whether `day` occurs in `days`.
pub fn has_day(days: &Vec<DayOfWeek>, day: DayOfWeek) -> (found: bool)
    ensures
        found == days@.contains(day),
{
    let mut i: usize = 0;
    while i < days.len()
        invariant
            i <= days.len(),
            forall|j: int| 0 <= j < i ==> days@[j] != day,
        decreases days.len() - i,
    {
        if days[i] == day {
            return true;
        }
        i += 1;
    }
    false
}

impl Clone for RecurrencePattern {
    fn clone(&self) -> (copy: Self)
        ensures
            copy@ == self@,
    {
        let specific_days = match &self.specific_days {
            Some(days) => {
                let copied = days.clone();
                assert(copied@ =~= days@);
                Some(copied)
            },
            None => None,
        };
        RecurrencePattern { frequency: self.frequency, interval: self.interval, specific_days }
    }
}

impl RecurrencePattern {
    /// A pattern that recurs every day.
    pub fn new_daily() -> (pattern: Self)
        ensures
            pattern@ == (RecurrenceView {
                frequency: Frequency::Daily,
                interval: Some(1u32),
                specific_days: None,
            }),
            Self::valid(pattern@),
    {
        Self { frequency: Frequency::Daily, interval: Some(1), specific_days: None }
    }

    /// A pattern that recurs on the given days of the week: each day once,
    /// in the order of the week.
    pub fn new_custom(days: Vec<DayOfWeek>) -> (pattern: Self)
        requires
            days@.len() > 0,
        ensures
            pattern@ == (RecurrenceView {
                frequency: Frequency::Custom,
                interval: None,
                specific_days: Some(distinct_sorted_days(days@)),
            }),
            Self::valid(pattern@),
    {
        proof {
            lemma_distinct_sorted_days(days@);
        }
        let mut unique_days: Vec<DayOfWeek> = Vec::new();
        let mut index: u8 = 0;
        while index < 7
            invariant
                index <= 7,
                unique_days@ == chosen_days(days@, index as nat),
            decreases 7 - index,
        {
            let day = weekday(index);
            if has_day(&days, day) {
                unique_days.push(day);
            }
            index += 1;
        }
        RecurrencePattern {
            frequency: Frequency::Custom,
            interval: None,
            specific_days: Some(unique_days),
        }
    }

    /// Whether the pattern is one that the constructors make: daily with
    /// an interval above zero and no days, or custom with days and no
    /// interval.
    pub open spec fn valid(pattern: RecurrenceView) -> bool {
        match pattern.frequency {
            Frequency::Custom => pattern.specific_days is Some
                && pattern.specific_days->0.len() > 0 && pattern.interval is None,
            Frequency::Daily => pattern.interval is Some && pattern.interval->0 > 0
                && pattern.specific_days is None,
        }
    }

    /// Whether the pattern is one that the constructors make.
    pub fn is_valid(&self) -> (valid: bool)
        ensures
            valid == Self::valid(self@),
    {
        match self.frequency {
            Frequency::Custom => {
                match &self.specific_days {
                    Some(days) => days.len() > 0 && self.interval.is_none(),
                    None => false,
                }
            },
            Frequency::Daily => {
                match self.interval {
                    Some(interval) => interval > 0 && self.specific_days.is_none(),
                    None => false,
                }
            },
        }
    }
}

/// A stretch of the day, from one minute of the day to another, that
/// recurs. One that ends before it starts runs over midnight.
#[derive(Debug, PartialEq, Eq)]
pub struct TimeSlot {
    pub id: TimeSlotId,
    /// Minutes from midnight, below 1440.
    pub start_minutes: u32,
    /// Minutes from midnight, below 1440.
    pub end_minutes: u32,
    pub duration: Option<u32>,
    pub recurrence: RecurrencePattern,
    pub owner_id: String,
    pub slot_type: SlotType,
}

/// A time slot as a mathematical value.
pub struct TimeSlotView {
    pub id: Seq<char>,
    pub start_minutes: u32,
    pub end_minutes: u32,
    pub duration: Option<u32>,
    pub recurrence: RecurrenceView,
    pub owner_id: Seq<char>,
    pub slot_type: SlotType,
}

impl View for TimeSlot {
    type V = TimeSlotView;

    open spec fn view(&self) -> TimeSlotView {
        TimeSlotView {
            id: self.id@,
            start_minutes: self.start_minutes,
            end_minutes: self.end_minutes,
            duration: self.duration,
            recurrence: self.recurrence@,
            owner_id: self.owner_id@,
            slot_type: self.slot_type,
        }
    }
}

/// Whether two minutes of the day can bound a slot: both below 1440 and
/// not the same.
pub open spec fn valid_minutes(start: u32, end: u32) -> bool {
    start < 1440 && end < 1440 && start != end
}

/// The length in minutes of a slot from `start` to `end`, which runs over
/// midnight where `end` is before `start`.
pub open spec fn slot_duration(start: u32, end: u32) -> int {
    (end + 1440 - start) % 1440
}

/// What the rules on recurrence say of a pattern: a custom one names at
/// least one day, a daily one has an interval and names no days.
pub open spec fn recurrence_verdict(pattern: RecurrenceView) -> Result<
    (),
    TimeSlotValidationError,
> {
    match pattern.frequency {
        Frequency::Custom => if pattern.specific_days is Some && pattern.specific_days->0.len()
            > 0 {
            Ok(())
        } else {
            Err(TimeSlotValidationError::Recurrence(TimeSlotRecurrenceError::EmptyDays))
        },
        Frequency::Daily => if pattern.interval is Some && pattern.specific_days is None {
            Ok(())
        } else {
            Err(TimeSlotValidationError::Recurrence(TimeSlotRecurrenceError::InvalidPattern))
        },
    }
}

/// The bytes in a slot's fields of variable length: its identifier, its
/// owner, and one byte for each day that its pattern names.
pub open spec fn slot_dynamic_bytes(slot: TimeSlotView) -> nat {
    byte_len(slot.id) + byte_len(slot.owner_id) + (match slot.recurrence.specific_days {
        Some(days) => days.len(),
        None => 0,
    })
}

/// What validation says of a slot: the first rule that it breaks, the
/// rules on recurrence coming before the quota.
pub open spec fn slot_verdict(slot: TimeSlotView, ctx: Context) -> Result<(), TimeSlotError> {
    match recurrence_verdict(slot.recurrence) {
        Err(e) => Err(TimeSlotError::Validation(e)),
        Ok(_) => match quota_verdict(
            TIME_SLOT_BASE_STORAGE + slot_dynamic_bytes(slot),
            TIME_SLOT_MAX_STORAGE,
            ctx.byte_cost,
            ctx.balance,
        ) {
            Err(e) => Err(TimeSlotError::Storage(e)),
            Ok(_) => Ok(()),
        },
    }
}

/// The slot that `TimeSlot::new` makes of its arguments at the time `now`.
pub open spec fn fresh_slot(
    start: u32,
    end: u32,
    recurrence: RecurrenceView,
    owner: Seq<char>,
    now: u64,
) -> TimeSlotView {
    TimeSlotView {
        id: entity_id("time_slot"@, owner, now),
        start_minutes: start,
        end_minutes: end,
        duration: Some(slot_duration(start, end) as u32),
        recurrence,
        owner_id: owner,
        slot_type: SlotType::WorkingHours,
    }
}

/// What `TimeSlot::new` says of its arguments: the minutes come first,
/// then the rules of validation.
pub open spec fn slot_creation_verdict(
    start: u32,
    end: u32,
    recurrence: RecurrenceView,
    owner: Seq<char>,
    ctx: Context,
) -> Result<(), TimeSlotError> {
    if !valid_minutes(start, end) {
        Err(
            TimeSlotError::Validation(
                TimeSlotValidationError::Timing {
                    reason: TimeSlotTimingError::InvalidTimeOfDay,
                    start_minutes: start,
                    end_minutes: end,
                },
            ),
        )
    } else {
        slot_verdict(fresh_slot(start, end, recurrence, owner, ctx.now), ctx)
    }
}

/// Whether two slots overlap. Slots of different types never do. Of two
/// slots of one type, two that both run over midnight always do; one that
/// runs over midnight overlaps another that begins before it ends or ends
/// after it begins; two that do not run over midnight overlap where each
/// begins before the other ends.
pub open spec fn slots_overlap(a: TimeSlotView, b: TimeSlotView) -> bool {
    if a.slot_type != b.slot_type {
        false
    } else if a.start_minutes < a.end_minutes && b.start_minutes < b.end_minutes {
        a.start_minutes < b.end_minutes && a.end_minutes > b.start_minutes
    } else if a.start_minutes >= a.end_minutes && b.start_minutes < b.end_minutes {
        a.start_minutes < b.end_minutes || a.end_minutes > b.start_minutes
    } else if a.start_minutes < a.end_minutes && b.start_minutes >= b.end_minutes {
        b.start_minutes < a.end_minutes || b.end_minutes > a.start_minutes
    } else {
        true
    }
}

/// Whether a slot covers a minute of the day.
pub open spec fn covers_minute(slot: TimeSlotView, minute: int) -> bool {
    if slot.start_minutes < slot.end_minutes {
        slot.start_minutes <= minute < slot.end_minutes
    } else {
        (slot.start_minutes <= minute < 1440) || (0 <= minute < slot.end_minutes)
    }
}

/// Two slots of one type with valid minutes overlap exactly when some
/// minute of the day lies in both.
pub proof fn lemma_overlap_is_shared_minute(a: TimeSlotView, b: TimeSlotView)
    requires
        valid_minutes(a.start_minutes, a.end_minutes),
        valid_minutes(b.start_minutes, b.end_minutes),
        a.slot_type == b.slot_type,
    ensures
        slots_overlap(a, b) <==> exists|minute: int|
            0 <= minute < 1440 && covers_minute(a, minute) && #[trigger] covers_minute(b, minute),
{
    if slots_overlap(a, b) {
        let a_wraps = a.start_minutes >= a.end_minutes;
        let b_wraps = b.start_minutes >= b.end_minutes;
        let minute: int = if a_wraps && b_wraps {
            1439
        } else if !a_wraps && !b_wraps {
            if a.start_minutes >= b.start_minutes {
                a.start_minutes as int
            } else {
                b.start_minutes as int
            }
        } else if a_wraps {
            if a.start_minutes < b.end_minutes {
                b.end_minutes - 1
            } else {
                b.start_minutes as int
            }
        } else {
            if b.start_minutes < a.end_minutes {
                a.end_minutes - 1
            } else {
                a.start_minutes as int
            }
        };
        assert(covers_minute(a, minute) && covers_minute(b, minute));
    }
}

/// Overlap does not depend on which slot is asked.
pub proof fn lemma_overlap_symmetric(a: TimeSlotView, b: TimeSlotView)
    ensures
        slots_overlap(a, b) == slots_overlap(b, a),
{
}

/// The rules that a time slot keeps besides the quota.
pub trait TimeSlotValidation {
    /// The pattern by which the slot recurs.
    spec fn pattern(&self) -> RecurrenceView;

    fn validate_recurrence(&self) -> (r: Result<(), TimeSlotValidationError>)
        ensures
            r == recurrence_verdict(self.pattern()),
    ;
}

impl TimeSlotValidation for TimeSlot {
    open spec fn pattern(&self) -> RecurrenceView {
        self.recurrence@
    }

    fn validate_recurrence(&self) -> (r: Result<(), TimeSlotValidationError>) {
        match self.recurrence.frequency {
            Frequency::Custom => {
                let named = match &self.recurrence.specific_days {
                    Some(days) => days.len() > 0,
                    None => false,
                };
                if named {
                    Ok(())
                } else {
                    Err(TimeSlotValidationError::Recurrence(TimeSlotRecurrenceError::EmptyDays))
                }
            },
            Frequency::Daily => {
                if self.recurrence.interval.is_some() && self.recurrence.specific_days.is_none() {
                    Ok(())
                } else {
                    Err(
                        TimeSlotValidationError::Recurrence(
                            TimeSlotRecurrenceError::InvalidPattern,
                        ),
                    )
                }
            },
        }
    }
}

impl Ownable for TimeSlot {
    open spec fn owner(&self) -> Seq<char> {
        self.owner_id@
    }

    fn get_owner_id(&self) -> (owner: &String) {
        &self.owner_id
    }
}

impl Entity for TimeSlot {
    open spec fn kind() -> Seq<char> {
        "time_slot"@
    }

    open spec fn key(&self) -> Seq<char> {
        self.id@
    }

    fn get_id(&self) -> (id: &String) {
        &self.id
    }

    fn kind_name() -> (name: &'static str) {
        "time_slot"
    }
}

impl Storable for TimeSlot {
    const BASE_STORAGE: u64 = TIME_SLOT_BASE_STORAGE;

    const MAX_STORAGE: u64 = TIME_SLOT_MAX_STORAGE;

    open spec fn dynamic_bytes(&self) -> nat {
        slot_dynamic_bytes(self@)
    }

    fn calculate_storage_metrics(&self, ctx: &Context) -> (m: StorageMetrics) {
        let mut dynamic_size: u64 = add_bytes(0, text_bytes(&self.id));
        dynamic_size = add_bytes(dynamic_size, text_bytes(&self.owner_id));
        match &self.recurrence.specific_days {
            Some(days) => {
                dynamic_size = add_bytes(dynamic_size, days.len());
            },
            None => {},
        }
        assert(dynamic_size == clamp_u64(slot_dynamic_bytes(self@) as int));
        build_metrics(TIME_SLOT_BASE_STORAGE, dynamic_size, ctx.byte_cost)
    }

    proof fn budget_is_bounded() {
    }
}

impl Clone for TimeSlot {
    fn clone(&self) -> (copy: Self)
        ensures
            copy@ == self@,
    {
        TimeSlot {
            id: self.id.clone(),
            start_minutes: self.start_minutes,
            end_minutes: self.end_minutes,
            duration: self.duration,
            recurrence: self.recurrence.clone(),
            owner_id: self.owner_id.clone(),
            slot_type: self.slot_type,
        }
    }
}

impl TimeSlot {
    /// A slot of working hours for `owner_id`, made at the time of the call
    /// and accepted only where its minutes are valid and validation passes.
    pub fn new(
        start_minutes: u32,
        end_minutes: u32,
        recurrence: RecurrencePattern,
        owner_id: String,
        ctx: &Context,
    ) -> (r: Result<Self, TimeSlotError>)
        ensures
            match r {
                Ok(slot) => slot@ == fresh_slot(
                    start_minutes,
                    end_minutes,
                    recurrence@,
                    owner_id@,
                    ctx.now,
                ) && slot_creation_verdict(
                    start_minutes,
                    end_minutes,
                    recurrence@,
                    owner_id@,
                    *ctx,
                ) is Ok,
                Err(e) => slot_creation_verdict(
                    start_minutes,
                    end_minutes,
                    recurrence@,
                    owner_id@,
                    *ctx,
                ) == Err::<(), TimeSlotError>(e),
            },
    {
        if start_minutes >= MAX_MINUTES || end_minutes >= MAX_MINUTES || start_minutes
            == end_minutes {
            return Err(
                TimeSlotError::Validation(
                    TimeSlotValidationError::Timing {
                        reason: TimeSlotTimingError::InvalidTimeOfDay,
                        start_minutes,
                        end_minutes,
                    },
                ),
            );
        }
        let duration: u32 = if end_minutes >= start_minutes {
            end_minutes - start_minutes
        } else {
            (MAX_MINUTES - start_minutes) + end_minutes
        };
        let mut time_slot = Self {
            id: make_entity_id("time_slot", owner_id.as_str(), ctx.now),
            start_minutes,
            end_minutes,
            duration: Some(duration),
            recurrence,
            owner_id,
            slot_type: SlotType::WorkingHours,
        };
        match time_slot.validate(ctx) {
            Ok(_) => Ok(time_slot),
            Err(e) => Err(e),
        }
    }

    /// Holds the slot against its rules: recurrence first, then the quota.
    /// The slot is left as it was.
    pub fn validate(&mut self, ctx: &Context) -> (r: Result<(), TimeSlotError>)
        ensures
            final(self)@ == old(self)@,
            r == slot_verdict(old(self)@, *ctx),
    {
        match self.validate_recurrence() {
            Ok(_) => {},
            Err(e) => {
                return Err(TimeSlotError::Validation(e));
            },
        }
        match self.validate_storage(ctx) {
            Ok(_) => {},
            Err(e) => {
                return Err(TimeSlotError::Storage(e));
            },
        }
        Ok(())
    }

    /// Whether the slot overlaps `other`.
    pub fn overlaps_with(&self, other: &TimeSlot) -> (overlap: bool)
        ensures
            overlap == slots_overlap(self@, other@),
    {
        if self.slot_type != other.slot_type {
            return false;
        }
        if self.start_minutes < self.end_minutes && other.start_minutes < other.end_minutes {
            self.start_minutes < other.end_minutes && self.end_minutes > other.start_minutes
        } else if self.start_minutes >= self.end_minutes && other.start_minutes
            < other.end_minutes {
            self.start_minutes < other.end_minutes || self.end_minutes > other.start_minutes
        } else if self.start_minutes < self.end_minutes && other.start_minutes
            >= other.end_minutes {
            other.start_minutes < self.end_minutes || other.end_minutes > self.start_minutes
        } else {
            true
        }
    }
}

} // verus!
