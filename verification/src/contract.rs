//! The engine: every entity of every owner, the indexes by owner, the
//! ledger of points, and the operations on them.

use vstd::prelude::*;
use crate::errors::{ErrorView, IndexType};
use crate::ledger::Ledger;
use crate::models::habit::Habit;
use crate::models::reward::Reward;
use crate::models::task::Task;
use crate::models::time_slot::TimeSlot;
use crate::models::traits::OwnershipError;
use crate::registry::registry_wf;
use crate::response::names;
use crate::store::{OwnerIndex, Table};

pub mod archive;
pub mod completion;
pub mod hierarchy;
pub mod rewards;
pub mod tasks;
pub mod time_slots;
use crate::text::id_texts;

verus! {

/// The state of the engine.
pub struct Contract {
    tasks: Table<Task>,
    tasks_per_owner: OwnerIndex,
    habits: Table<Habit>,
    habits_per_owner: OwnerIndex,
    task_completions: Table<Vec<u64>>,
    reward_points: Ledger,
    rewards: Table<Reward>,
    rewards_per_owner: OwnerIndex,
    time_slots: Table<TimeSlot>,
    time_slots_per_owner: OwnerIndex,
}

/// The state of the engine as contracts speak of it.
pub struct EngineView {
    pub tasks: Table<Task>,
    pub tasks_per_owner: OwnerIndex,
    pub habits: Table<Habit>,
    pub habits_per_owner: OwnerIndex,
    pub task_completions: Table<Vec<u64>>,
    pub reward_points: Ledger,
    pub rewards: Table<Reward>,
    pub rewards_per_owner: OwnerIndex,
    pub time_slots: Table<TimeSlot>,
    pub time_slots_per_owner: OwnerIndex,
}

impl View for Contract {
    type V = EngineView;

    closed spec fn view(&self) -> EngineView {
        EngineView {
            tasks: self.tasks,
            tasks_per_owner: self.tasks_per_owner,
            habits: self.habits,
            habits_per_owner: self.habits_per_owner,
            task_completions: self.task_completions,
            reward_points: self.reward_points,
            rewards: self.rewards,
            rewards_per_owner: self.rewards_per_owner,
            time_slots: self.time_slots,
            time_slots_per_owner: self.time_slots_per_owner,
        }
    }
}

/// What holds of every state of the engine: each entity stands under its
/// own identifier, which names its owner and stands once; each index holds
/// for each owner exactly the identifiers of the owner's entities, in the
/// order of their table; and no task has two histories and no owner two
/// balances.
pub open spec fn engine_wf(v: EngineView) -> bool {
    &&& registry_wf(v.tasks, v.tasks_per_owner)
    &&& registry_wf(v.habits, v.habits_per_owner)
    &&& registry_wf(v.rewards, v.rewards_per_owner)
    &&& registry_wf(v.time_slots, v.time_slots_per_owner)
    &&& v.task_completions.wf()
    &&& v.reward_points.wf()
}

/// The error for a caller who is not the owner.
pub open spec fn not_owner() -> ErrorView {
    ErrorView::AccessError(OwnershipError::NotOwner)
}

/// The index of the entities of one kind.
pub open spec fn index_of_kind(v: EngineView, index_type: IndexType) -> OwnerIndex {
    match index_type {
        IndexType::Task => v.tasks_per_owner,
        IndexType::Habit => v.habits_per_owner,
        IndexType::Reward => v.rewards_per_owner,
        IndexType::TimeSlot => v.time_slots_per_owner,
    }
}

impl Contract {
    /// Whether the state is one that the engine keeps.
    pub open spec fn wf(&self) -> bool {
        engine_wf(self@)
    }

    /// An engine that holds nothing.
    pub fn new() -> (engine: Self)
        ensures
            engine.wf(),
            engine@.tasks.keys().len() == 0,
            engine@.habits.keys().len() == 0,
            engine@.rewards.keys().len() == 0,
            engine@.time_slots.keys().len() == 0,
            engine@.task_completions.keys().len() == 0,
            forall|owner: Seq<char>| #[trigger] engine@.reward_points.balance(owner) == 0,
            forall|owner: Seq<char>|
                !engine@.tasks_per_owner.has_owner(owner) && !engine@.habits_per_owner.has_owner(
                    owner,
                ) && !engine@.rewards_per_owner.has_owner(owner)
                    && !engine@.time_slots_per_owner.has_owner(owner),
    {
        Self {
            tasks: Table::new(),
            tasks_per_owner: OwnerIndex::new(),
            habits: Table::new(),
            habits_per_owner: OwnerIndex::new(),
            task_completions: Table::new(),
            reward_points: Ledger::new(),
            rewards: Table::new(),
            rewards_per_owner: OwnerIndex::new(),
            time_slots: Table::new(),
            time_slots_per_owner: OwnerIndex::new(),
        }
    }

    /// The identifiers that the index of one kind holds for `owner_id`,
    /// unless the owner was never entered there.
    pub fn indexed_ids(&self, owner_id: &String, index_type: IndexType) -> (ids: Option<
        Vec<String>,
    >)
        requires
            self.wf(),
        ensures
            match ids {
                Some(list) => index_of_kind(self@, index_type).has_owner(owner_id@) && id_texts(
                    list@,
                ) == index_of_kind(self@, index_type).ids_of(owner_id@),
                None => !index_of_kind(self@, index_type).has_owner(owner_id@),
            },
    {
        let set = match index_type {
            IndexType::Task => self.tasks_per_owner.get(owner_id),
            IndexType::Habit => self.habits_per_owner.get(owner_id),
            IndexType::Reward => self.rewards_per_owner.get(owner_id),
            IndexType::TimeSlot => self.time_slots_per_owner.get(owner_id),
        };
        match set {
            Some(ids) => Some(ids.to_vec()),
            None => None,
        }
    }
}

} // verus!
