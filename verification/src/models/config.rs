//! Limits and budgets.

use vstd::prelude::*;

verus! {

pub const REWARD_BASE_STORAGE: u64 = 128;

pub const REWARD_MAX_STORAGE: u64 = 2048;

pub const TASK_BASE_STORAGE: u64 = 256;

pub const TASK_MAX_STORAGE: u64 = 4096;

pub const TIME_SLOT_BASE_STORAGE: u64 = 128;

pub const TIME_SLOT_MAX_STORAGE: u64 = 2048;

pub const HABIT_BASE_STORAGE: u64 = 128;

pub const HABIT_MAX_STORAGE: u64 = 2048;

/// Minutes in a day.
pub const MAX_MINUTES: u32 = 1440;

/// Nanoseconds in a day.
pub const DAY_NANOS: u64 = 86_400_000_000_000;

/// Nanoseconds in a minute.
pub const MINUTE_NANOS: u64 = 60_000_000_000;

/// How far ahead a deadline may lie: 365 days, in nanoseconds.
pub const MAX_FUTURE_TIME: u64 = 31_536_000_000_000_000;

/// 30 days, in nanoseconds.
pub const MAX_SLOT_FUTURE_TIME: u64 = 2_592_000_000_000_000;

pub const MAX_TITLE_LENGTH: usize = 256;

pub const MAX_DESCRIPTION_LENGTH: usize = 1024;

} // verus!
