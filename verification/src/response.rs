//! What an operation of the engine hands back.

use vstd::prelude::*;
use crate::errors::{ContractError, ErrorView};
use crate::models::habit::Habit;
use crate::models::reward::{Reward, RewardId};
use crate::models::task::{Task, TaskId};
use crate::models::time_slot::{TimeSlot, TimeSlotId};

verus! {

/// The outcome of an operation: what it yields, or why it failed.
#[derive(Debug, PartialEq, Eq)]
pub enum Response<T, E> {
    Success(T),
    Error(E),
}

impl<T, E> Response<T, E> {
    /// The same outcome with its error, if any, carried over by `f`.
    pub fn map_err<F, E2>(self, f: F) -> (mapped: Response<T, E2>) where F: FnOnce(E) -> E2
        requires
            self matches Response::Error(e) ==> f.requires((e,)),
        ensures
            match self {
                Response::Success(t) => mapped == Response::<T, E2>::Success(t),
                Response::Error(e) => mapped matches Response::Error(e2) && f.ensures((e,), e2),
            },
    {
        match self {
            Response::Success(t) => Response::Success(t),
            Response::Error(e) => Response::Error(f(e)),
        }
    }

    /// The outcome that stands for a `Result`, its error, if any, carried
    /// over by `error_mapper`.
    pub fn from_result<E2>(result: Result<T, E2>, error_mapper: impl FnOnce(E2) -> E) -> (response:
        Self)
        requires
            result matches Err(e) ==> error_mapper.requires((e,)),
        ensures
            match result {
                Ok(t) => response == Response::<T, E>::Success(t),
                Err(e) => response matches Response::Error(e2) && error_mapper.ensures((e,), e2),
            },
    {
        match result {
            Ok(t) => Response::Success(t),
            Err(e) => Response::Error(error_mapper(e)),
        }
    }

}

pub type TaskResponse = Response<Task, ContractError>;

pub type TaskListResponse = Response<Vec<Task>, ContractError>;

pub type TaskActionResponse = Response<TaskId, ContractError>;

pub type HabitListResponse = Response<Vec<Habit>, ContractError>;

pub type RewardResponse = Response<Reward, ContractError>;

pub type RewardActionResponse = Response<RewardId, ContractError>;

pub type RewardListResponse = Response<Vec<Reward>, ContractError>;

pub type TimeSlotResponse = Response<TimeSlot, ContractError>;

pub type TimeSlotListResponse = Response<Vec<TimeSlot>, ContractError>;

pub type TimeSlotActionResponse = Response<TimeSlotId, ContractError>;

pub type PointsResponse = Response<u32, ContractError>;

/// The response is the error `error`.
pub open spec fn fails_with<T>(response: Response<T, ContractError>, error: ErrorView) -> bool {
    response matches Response::Error(e) && e@ == error
}

/// The response is a success that names `id`.
pub open spec fn names(response: Response<String, ContractError>, id: Seq<char>) -> bool {
    response matches Response::Success(named) && named@ == id
}

} // verus!
