//! A personal productivity engine: tasks with subtasks and time-boxing,
//! habits that recur from tasks, rewards bought with earned points, and a
//! calendar of daily time slots, all kept per owner in one engine state.
//!
//! Every operation is told who calls, when, and what the caller may spend
//! on storage (`context`); the engine itself (`contract`) keeps the
//! entities (`models`) in tables with an index by owner (`store`,
//! `registry`) and the points in a ledger (`ledger`).

pub mod context;
pub mod contract;
pub mod errors;
pub mod ledger;
pub mod models;
pub mod registry;
pub mod response;
pub mod schedule;
pub mod store;
pub mod text;

pub use context::Context;
pub use contract::Contract;
pub use errors::{ContractError, IndexType};
pub use response::Response;
