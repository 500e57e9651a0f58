//! The whole state of the engine as plain lists, to keep it elsewhere and
//! to take it up again.

use vstd::prelude::*;
use crate::contract::{engine_wf, Contract, EngineView};
use crate::ledger::{account_names, Balance, Ledger};
use crate::models::habit::Habit;
use crate::models::reward::Reward;
use crate::models::task::Task;
use crate::models::time_slot::TimeSlot;
use crate::registry::{
    holds, lemma_registry_restorable, owns_any, records, registry_wf, restorable,
    restore_registry, views, Entity,
};
use crate::store::{OwnerIndex, Table};
use crate::text::id_texts;

verus! {

/// The times at which one task was completed.
#[derive(Debug, PartialEq, Eq)]
pub struct History {
    pub task_id: String,
    pub times: Vec<u64>,
}

/// Everything that the engine holds: the entities of each kind in the
/// order of their tables, the owners that each index knows, the
/// histories and the balances.
#[derive(Debug, PartialEq, Eq)]
pub struct Snapshot {
    pub tasks: Vec<Task>,
    pub task_owners: Vec<String>,
    pub habits: Vec<Habit>,
    pub habit_owners: Vec<String>,
    pub task_completions: Vec<History>,
    pub reward_points: Vec<Balance>,
    pub rewards: Vec<Reward>,
    pub reward_owners: Vec<String>,
    pub time_slots: Vec<TimeSlot>,
    pub time_slot_owners: Vec<String>,
}

/// The tasks of a list of histories.
pub open spec fn history_names(list: Seq<History>) -> Seq<Seq<char>> {
    Seq::new(list.len(), |i: int| list[i].task_id@)
}

/// Whether a snapshot can be taken up: in each kind no identifier stands
/// twice and each names the owner of its entity, and no task has two
/// histories and no owner two balances.
pub open spec fn snapshot_valid(s: Snapshot) -> bool {
    &&& restorable("task"@, records(s.tasks@))
    &&& restorable("habit"@, records(s.habits@))
    &&& restorable("reward"@, records(s.rewards@))
    &&& restorable("time_slot"@, records(s.time_slots@))
    &&& history_names(s.task_completions@).no_duplicates()
    &&& account_names(s.reward_points@).no_duplicates()
}

/// The histories of a table are those of a list, in its order.
pub open spec fn histories_match(table: Table<Vec<u64>>, list: Seq<History>) -> bool {
    &&& table.keys() == history_names(list)
    &&& table.values().len() == list.len()
    &&& forall|i: int| 0 <= i < list.len() ==> (#[trigger] table.values()[i])@ == list[i].times@
}

/// The balances of a ledger are those of a list, in its order.
pub open spec fn balances_match(ledger: Ledger, list: Seq<Balance>) -> bool {
    &&& ledger.accounts() == account_names(list)
    &&& forall|i: int|
        0 <= i < list.len() ==> ledger.balance((#[trigger] list[i]).owner@) == list[i].points
}

/// A snapshot that shows what the engine holds.
pub open spec fn pictures(v: EngineView, s: Snapshot) -> bool {
    &&& views(s.tasks@) == views(v.tasks.values())
    &&& id_texts(s.task_owners@) == v.tasks_per_owner.owners()
    &&& views(s.habits@) == views(v.habits.values())
    &&& id_texts(s.habit_owners@) == v.habits_per_owner.owners()
    &&& views(s.rewards@) == views(v.rewards.values())
    &&& id_texts(s.reward_owners@) == v.rewards_per_owner.owners()
    &&& views(s.time_slots@) == views(v.time_slots.values())
    &&& id_texts(s.time_slot_owners@) == v.time_slots_per_owner.owners()
    &&& histories_match(v.task_completions, s.task_completions@)
    &&& balances_match(v.reward_points, s.reward_points@)
}

/// An engine that holds what a snapshot shows: the entities in their
/// order, each entered for its owner, the owners that the snapshot lists
/// known to the indexes, and the histories and balances as listed.
pub open spec fn restored(v: EngineView, s: Snapshot) -> bool {
    &&& holds(v.tasks, v.tasks_per_owner, s.tasks@, id_texts(s.task_owners@))
    &&& holds(v.habits, v.habits_per_owner, s.habits@, id_texts(s.habit_owners@))
    &&& holds(v.rewards, v.rewards_per_owner, s.rewards@, id_texts(s.reward_owners@))
    &&& holds(v.time_slots, v.time_slots_per_owner, s.time_slots@, id_texts(s.time_slot_owners@))
    &&& histories_match(v.task_completions, s.task_completions@)
    &&& balances_match(v.reward_points, s.reward_points@)
}

/// A snapshot of an engine can always be taken up again.
pub proof fn lemma_snapshot_valid(v: EngineView, s: Snapshot)
    requires
        engine_wf(v),
        pictures(v, s),
    ensures
        snapshot_valid(s),
{
    lemma_registry_restorable(v.tasks, v.tasks_per_owner);
    lemma_registry_restorable(v.habits, v.habits_per_owner);
    lemma_registry_restorable(v.rewards, v.rewards_per_owner);
    lemma_registry_restorable(v.time_slots, v.time_slots_per_owner);
    assert(views(s.tasks@).len() == s.tasks@.len());
    assert(views(v.tasks.values()).len() == v.tasks.values().len());
    assert(records(s.tasks@) =~= records(v.tasks.values())) by {
        assert forall|i: int| 0 <= i < s.tasks@.len() implies records(s.tasks@)[i] == records(
            v.tasks.values(),
        )[i] by {
            assert(views(s.tasks@)[i] == views(v.tasks.values())[i]);
        }
    }
    assert(views(s.habits@).len() == s.habits@.len());
    assert(views(v.habits.values()).len() == v.habits.values().len());
    assert(records(s.habits@) =~= records(v.habits.values())) by {
        assert forall|i: int| 0 <= i < s.habits@.len() implies records(s.habits@)[i] == records(
            v.habits.values(),
        )[i] by {
            assert(views(s.habits@)[i] == views(v.habits.values())[i]);
        }
    }
    assert(views(s.rewards@).len() == s.rewards@.len());
    assert(views(v.rewards.values()).len() == v.rewards.values().len());
    assert(records(s.rewards@) =~= records(v.rewards.values())) by {
        assert forall|i: int| 0 <= i < s.rewards@.len() implies records(s.rewards@)[i] == records(
            v.rewards.values(),
        )[i] by {
            assert(views(s.rewards@)[i] == views(v.rewards.values())[i]);
        }
    }
    assert(views(s.time_slots@).len() == s.time_slots@.len());
    assert(views(v.time_slots.values()).len() == v.time_slots.values().len());
    assert(records(s.time_slots@) =~= records(v.time_slots.values())) by {
        assert forall|i: int| 0 <= i < s.time_slots@.len() implies records(s.time_slots@)[i]
            == records(v.time_slots.values())[i] by {
            assert(views(s.time_slots@)[i] == views(v.time_slots.values())[i]);
        }
    }
    v.reward_points.lemma_accounts();
}

/// The records of two lists of entities with the same views are the same.
pub proof fn lemma_same_records<T: Entity>(first: Seq<T>, second: Seq<T>)
    requires
        views(first) == views(second),
        forall|a: T, b: T|
            #![trigger a.key(), b.key()]
            a@ == b@ ==> a.key() == b.key() && a.owner() == b.owner(),
    ensures
        records(first) == records(second),
{
    assert(views(first).len() == first.len());
    assert(views(second).len() == second.len());
    assert forall|i: int| 0 <= i < first.len() implies records(first)[i] == records(second)[i] by {
        assert(views(first)[i] == first[i]@);
        assert(views(second)[i] == second[i]@);
        assert(first[i]@ == second[i]@);
        assert(first[i].key() == second[i].key());
    }
    assert(records(first) =~= records(second));
}

/// Two tables with their indexes that hold the same: the same entities
/// under the same identifiers in the same order, and for every owner the
/// same identifiers in the same order.
pub open spec fn same_registry<T: Entity>(
    table: Table<T>,
    index: OwnerIndex,
    other_table: Table<T>,
    other_index: OwnerIndex,
) -> bool {
    &&& other_table.keys() == table.keys()
    &&& views(other_table.values()) == views(table.values())
    &&& forall|owner: Seq<char>| other_index.has_owner(owner) == index.has_owner(owner)
    &&& forall|owner: Seq<char>| #[trigger] other_index.ids_of(owner) == index.ids_of(owner)
}

/// Two engines that hold the same.
pub open spec fn same_content(v: EngineView, other: EngineView) -> bool {
    &&& same_registry(v.tasks, v.tasks_per_owner, other.tasks, other.tasks_per_owner)
    &&& same_registry(v.habits, v.habits_per_owner, other.habits, other.habits_per_owner)
    &&& same_registry(v.rewards, v.rewards_per_owner, other.rewards, other.rewards_per_owner)
    &&& same_registry(
        v.time_slots,
        v.time_slots_per_owner,
        other.time_slots,
        other.time_slots_per_owner,
    )
    &&& other.task_completions.keys() == v.task_completions.keys()
    &&& forall|i: int|
        0 <= i < v.task_completions.values().len() ==> (#[trigger] other.task_completions.values()[i])@
            == v.task_completions.values()[i]@
    &&& forall|owner: Seq<char>| #[trigger]
        other.reward_points.balance(owner) == v.reward_points.balance(owner)
}

/// A table and an index that are restored from what another table and
/// index showed hold the same as those.
pub proof fn lemma_registry_comes_back<T: Entity>(
    table: Table<T>,
    index: OwnerIndex,
    items: Seq<T>,
    owners: Seq<Seq<char>>,
    other_table: Table<T>,
    other_index: OwnerIndex,
)
    requires
        registry_wf(table, index),
        views(items) == views(table.values()),
        owners == index.owners(),
        holds(other_table, other_index, items, owners),
        forall|a: T, b: T|
            #![trigger a.key(), b.key()]
            a@ == b@ ==> a.key() == b.key() && a.owner() == b.owner(),
    ensures
        same_registry(table, index, other_table, other_index),
{
    lemma_same_records(items, table.values());
    lemma_registry_restorable(table, index);
    let entries = records(table.values());
    assert forall|owner: Seq<char>| other_index.has_owner(owner) == index.has_owner(owner) by {
        index.lemma_owners(owner);
        if owns_any(entries, owner) {
            let i = choose|i: int| 0 <= i < entries.len() && (#[trigger] entries[i]).owner == owner;
            assert(index.has_owner(entries[i].owner));
        }
    }
}

/// An engine that is restored from a snapshot of another holds the same
/// as the other.
pub proof fn lemma_restore_gives_back(v: EngineView, s: Snapshot, other: EngineView)
    requires
        engine_wf(v),
        pictures(v, s),
        restored(other, s),
    ensures
        same_content(v, other),
{
    lemma_registry_comes_back(
        v.tasks,
        v.tasks_per_owner,
        s.tasks@,
        id_texts(s.task_owners@),
        other.tasks,
        other.tasks_per_owner,
    );
    lemma_registry_comes_back(
        v.habits,
        v.habits_per_owner,
        s.habits@,
        id_texts(s.habit_owners@),
        other.habits,
        other.habits_per_owner,
    );
    lemma_registry_comes_back(
        v.rewards,
        v.rewards_per_owner,
        s.rewards@,
        id_texts(s.reward_owners@),
        other.rewards,
        other.rewards_per_owner,
    );
    lemma_registry_comes_back(
        v.time_slots,
        v.time_slots_per_owner,
        s.time_slots@,
        id_texts(s.time_slot_owners@),
        other.time_slots,
        other.time_slots_per_owner,
    );
    v.reward_points.lemma_accounts();
    other.reward_points.lemma_accounts_known();
    v.reward_points.lemma_accounts_known();
    assert forall|owner: Seq<char>| #[trigger]
        other.reward_points.balance(owner) == v.reward_points.balance(owner) by {
        let accounts = v.reward_points.accounts();
        if accounts.contains(owner) {
            let i = choose|i: int| 0 <= i < accounts.len() && accounts[i] == owner;
            assert(s.reward_points@[i].owner@ == owner);
        }
    }
}

/// Copies of the values of a table, in its order.
pub fn copy_values<T: Clone>(table: &Table<T>) -> (list: Vec<T>)
    requires
        table.wf(),
    ensures
        list@.len() == table.values().len(),
        forall|i: int| 0 <= i < list@.len() ==> cloned(#[trigger] table.values()[i], list@[i]),
{
    let mut list: Vec<T> = Vec::new();
    let mut i: usize = 0;
    while i < table.len()
        invariant
            table.wf(),
            i <= table.values().len(),
            list@.len() == i,
            forall|k: int| 0 <= k < i ==> cloned(#[trigger] table.values()[k], list@[k]),
        decreases table.values().len() - i,
    {
        list.push(table.value_at(i).clone());
        i += 1;
    }
    list
}

/// The histories of a table, in its order.
pub fn copy_histories(table: &Table<Vec<u64>>) -> (list: Vec<History>)
    requires
        table.wf(),
    ensures
        histories_match(*table, list@),
{
    let mut list: Vec<History> = Vec::new();
    let mut i: usize = 0;
    while i < table.len()
        invariant
            table.wf(),
            i <= table.keys().len(),
            list@.len() == i,
            forall|k: int|
                0 <= k < i ==> (#[trigger] list@[k]).task_id@ == table.keys()[k] && list@[k].times@
                    == table.values()[k]@,
        decreases table.keys().len() - i,
    {
        let times = table.value_at(i).clone();
        assert(times@ =~= table.values()[i as int]@);
        list.push(History { task_id: table.key_at(i).clone(), times });
        i += 1;
    }
    assert(table.keys() =~= history_names(list@));
    list
}

/// A table of the given histories, unless a task stands twice.
pub fn restore_histories(list: &Vec<History>) -> (r: Option<Table<Vec<u64>>>)
    ensures
        match r {
            Some(table) => history_names(list@).no_duplicates() && table.wf() && histories_match(
                table,
                list@,
            ),
            None => !history_names(list@).no_duplicates(),
        },
{
    let mut table: Table<Vec<u64>> = Table::new();
    let ghost names = history_names(list@);
    let mut i: usize = 0;
    proof {
        assert(table.keys() =~= names.take(0));
    }
    while i < list.len()
        invariant
            i <= list.len(),
            names == history_names(list@),
            table.wf(),
            table.keys() == names.take(i as int),
            table.values().len() == i,
            forall|k: int| 0 <= k < i ==> (#[trigger] table.values()[k])@ == list@[k].times@,
        decreases list.len() - i,
    {
        let entry = &list[i];
        if table.find(&entry.task_id).is_some() {
            proof {
                let j = table.position(entry.task_id@);
                assert(names.take(i as int)[j] == entry.task_id@);
                assert(names[j] == names[i as int]);
            }
            return None;
        }
        let times = entry.times.clone();
        assert(times@ =~= entry.times@);
        table.insert(entry.task_id.clone(), times);
        proof {
            assert(names.take(i + 1) =~= names.take(i as int).push(entry.task_id@));
        }
        i += 1;
    }
    proof {
        assert(names.take(i as int) =~= names);
    }
    Some(table)
}

impl Contract {
    /// Everything that the engine holds, as plain lists.
    pub fn snapshot(&self) -> (s: Snapshot)
        requires
            self.wf(),
        ensures
            pictures(self@, s),
            snapshot_valid(s),
    {
        let s = Snapshot {
            tasks: copy_values(&self.tasks),
            task_owners: self.tasks_per_owner.owner_list(),
            habits: copy_values(&self.habits),
            habit_owners: self.habits_per_owner.owner_list(),
            task_completions: copy_histories(&self.task_completions),
            reward_points: self.reward_points.balances(),
            rewards: copy_values(&self.rewards),
            reward_owners: self.rewards_per_owner.owner_list(),
            time_slots: copy_values(&self.time_slots),
            time_slot_owners: self.time_slots_per_owner.owner_list(),
        };
        proof {
            assert(views(s.tasks@) =~= views(self.tasks.values()));
            assert(views(s.habits@) =~= views(self.habits.values()));
            assert(views(s.rewards@) =~= views(self.rewards.values()));
            assert(views(s.time_slots@) =~= views(self.time_slots.values()));
            assert(self.reward_points.accounts() =~= account_names(s.reward_points@));
            lemma_snapshot_valid(self@, s);
        }
        s
    }

    /// An engine that holds what the snapshot shows, unless the snapshot
    /// cannot be taken up.
    pub fn restore(snapshot: Snapshot) -> (r: Option<Contract>)
        ensures
            match r {
                Some(engine) => snapshot_valid(snapshot) && engine.wf() && restored(
                    engine@,
                    snapshot,
                ),
                None => !snapshot_valid(snapshot),
            },
    {
        let task_completions = match restore_histories(&snapshot.task_completions) {
            Some(table) => table,
            None => {
                return None;
            },
        };
        let reward_points = match Ledger::from_balances(&snapshot.reward_points) {
            Some(ledger) => ledger,
            None => {
                return None;
            },
        };
        let (tasks, tasks_per_owner) = match restore_registry(
            snapshot.tasks,
            &snapshot.task_owners,
        ) {
            Some(pair) => pair,
            None => {
                return None;
            },
        };
        let (habits, habits_per_owner) = match restore_registry(
            snapshot.habits,
            &snapshot.habit_owners,
        ) {
            Some(pair) => pair,
            None => {
                return None;
            },
        };
        let (rewards, rewards_per_owner) = match restore_registry(
            snapshot.rewards,
            &snapshot.reward_owners,
        ) {
            Some(pair) => pair,
            None => {
                return None;
            },
        };
        let (time_slots, time_slots_per_owner) = match restore_registry(
            snapshot.time_slots,
            &snapshot.time_slot_owners,
        ) {
            Some(pair) => pair,
            None => {
                return None;
            },
        };
        Some(
            Contract {
                tasks,
                tasks_per_owner,
                habits,
                habits_per_owner,
                task_completions,
                reward_points,
                rewards,
                rewards_per_owner,
                time_slots,
                time_slots_per_owner,
            },
        )
    }
}

} // verus!
