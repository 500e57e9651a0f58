//! Rewards in the engine: making, changing, removing and redeeming them.

use vstd::prelude::*;
use crate::context::Context;
use crate::contract::{not_owner, Contract, EngineView};
use crate::contract::completion::completed;
use crate::errors::{
    missing_error, operation_error, reward_error_view, ContractError, ErrorView,
};
use crate::ledger::{empty_account_error, insufficient_error, insufficient_points};
use crate::models::reward::{
    fresh_reward, reward_normalized, reward_verdict, Reward, RewardError, RewardId, RewardState,
    RewardStateError, RewardView,
};
use crate::models::traits::Ownable;
use crate::registry::{
    lemma_entity_id_made_for, locate, owned_entities, owned_views, register, rewrite, table_set,
    table_unset, unregister, view_of, views,
};
use crate::response::{
    fails_with, names, PointsResponse, Response, RewardActionResponse, RewardListResponse,
};
use crate::store::{index_added, index_removed};
use crate::text::entity_id;

verus! {

/// The error for a reward that is not there.
pub open spec fn reward_missing(id: Seq<char>) -> ErrorView {
    missing_error("Reward"@, "Reward "@, id, " not found"@)
}

/// The error for a reward whose identifier is taken.
pub open spec fn reward_exists(id: Seq<char>) -> ErrorView {
    operation_error("Reward already exists: "@, id)
}

/// Why `add_reward` fails, if it does: the new reward breaks a rule, or
/// its identifier is taken.
pub open spec fn add_reward_error(
    before: EngineView,
    title: Seq<char>,
    description: Seq<char>,
    cost: u32,
    ctx: Context,
) -> Option<ErrorView> {
    let reward = fresh_reward(title, description, cost, ctx.caller@, ctx.now);
    match reward_verdict(reward, ctx) {
        Err(e) => Some(reward_error_view(e)),
        Ok(_) => if before.rewards.contains_key(reward.id) {
            Some(reward_exists(reward.id))
        } else {
            None
        },
    }
}

/// What `add_reward` makes of the engine: the new reward, trimmed, stands
/// under its identifier, after the rewards that were there, and is
/// entered for the caller.
pub open spec fn add_reward_effect(
    before: EngineView,
    after: EngineView,
    title: Seq<char>,
    description: Seq<char>,
    cost: u32,
    ctx: Context,
) -> bool {
    let reward = reward_normalized(fresh_reward(title, description, cost, ctx.caller@, ctx.now));
    &&& !before.rewards.contains_key(reward.id)
    &&& table_set(before.rewards, after.rewards, reward.id, reward)
    &&& index_added(before.rewards_per_owner, after.rewards_per_owner, ctx.caller@, reward.id)
    &&& after == (EngineView {
        rewards: after.rewards,
        rewards_per_owner: after.rewards_per_owner,
        ..before
    })
}

/// The reward under `id` with a new title, description and cost.
pub open spec fn edited_reward(
    before: EngineView,
    id: Seq<char>,
    title: Seq<char>,
    description: Seq<char>,
    cost: u32,
) -> RewardView {
    RewardView { title, description, cost, ..view_of(before.rewards, id) }
}

/// Why `update_reward` fails, if it does: the reward is not there, the
/// caller does not own it, or the edited reward breaks a rule.
pub open spec fn update_reward_error(
    before: EngineView,
    id: Seq<char>,
    title: Seq<char>,
    description: Seq<char>,
    cost: u32,
    ctx: Context,
) -> Option<ErrorView> {
    if !before.rewards.contains_key(id) {
        Some(reward_missing(id))
    } else if view_of(before.rewards, id).owner_id != ctx.caller@ {
        Some(not_owner())
    } else {
        match reward_verdict(edited_reward(before, id, title, description, cost), ctx) {
            Err(e) => Some(reward_error_view(e)),
            Ok(_) => None,
        }
    }
}

/// What `update_reward` makes of the engine: the edited reward, trimmed,
/// stands in the place of the old one.
pub open spec fn update_reward_effect(
    before: EngineView,
    after: EngineView,
    id: Seq<char>,
    title: Seq<char>,
    description: Seq<char>,
    cost: u32,
) -> bool {
    &&& table_set(
        before.rewards,
        after.rewards,
        id,
        reward_normalized(edited_reward(before, id, title, description, cost)),
    )
    &&& after == (EngineView { rewards: after.rewards, ..before })
}

/// Why `delete_reward` fails, if it does.
pub open spec fn delete_reward_error(before: EngineView, id: Seq<char>, ctx: Context) -> Option<
    ErrorView,
> {
    if !before.rewards.contains_key(id) {
        Some(reward_missing(id))
    } else if view_of(before.rewards, id).owner_id != ctx.caller@ {
        Some(not_owner())
    } else {
        None
    }
}

/// What `delete_reward` makes of the engine: the reward is gone from the
/// table and from the index of the caller.
pub open spec fn delete_reward_effect(
    before: EngineView,
    after: EngineView,
    id: Seq<char>,
    ctx: Context,
) -> bool {
    &&& table_unset(before.rewards, after.rewards, id)
    &&& index_removed(before.rewards_per_owner, after.rewards_per_owner, ctx.caller@, id)
    &&& after == (EngineView {
        rewards: after.rewards,
        rewards_per_owner: after.rewards_per_owner,
        ..before
    })
}

/// Why `redeem_reward` fails, if it does: the reward is not there, the
/// caller does not own it or has no name, the caller's points do not
/// cover the cost, or the reward is not active.
pub open spec fn redeem_reward_error(before: EngineView, id: Seq<char>, ctx: Context) -> Option<
    ErrorView,
> {
    if !before.rewards.contains_key(id) {
        Some(reward_missing(id))
    } else {
        let reward = view_of(before.rewards, id);
        if reward.owner_id != ctx.caller@ {
            Some(not_owner())
        } else if ctx.caller@.len() == 0 {
            Some(empty_account_error())
        } else if before.reward_points.balance(ctx.caller@) < reward.cost {
            Some(insufficient_error(before.reward_points.balance(ctx.caller@), reward.cost as nat))
        } else if reward.state != RewardState::Active {
            Some(
                reward_error_view(
                    RewardError::State(
                        RewardStateError::InvalidTransition {
                            from: reward.state,
                            to: RewardState::Completed,
                        },
                    ),
                ),
            )
        } else {
            None
        }
    }
}

/// What `redeem_reward` makes of the engine: the cost is taken from the
/// caller's points, and the reward is completed.
pub open spec fn redeem_reward_effect(
    before: EngineView,
    after: EngineView,
    id: Seq<char>,
    ctx: Context,
) -> bool {
    let reward = view_of(before.rewards, id);
    &&& table_set(
        before.rewards,
        after.rewards,
        id,
        RewardView { state: RewardState::Completed, ..reward },
    )
    &&& after.reward_points.balance(ctx.caller@) == before.reward_points.balance(ctx.caller@)
        - reward.cost
    &&& forall|other: Seq<char>|
        other != ctx.caller@ ==> #[trigger] after.reward_points.balance(other)
            == before.reward_points.balance(other)
    &&& after == (EngineView {
        rewards: after.rewards,
        reward_points: after.reward_points,
        ..before
    })
}

/// The rewards in the state `state` that the index holds for `owner`.
pub open spec fn rewards_in_state(v: EngineView, owner: Seq<char>, state: RewardState) -> Seq<
    RewardView,
> {
    owned_views(v.rewards, v.rewards_per_owner, owner).filter(|r: RewardView| r.state == state)
}

/// The rewards of a list that are in the state `state`.
pub fn select_rewards(all: &Vec<Reward>, state: RewardState) -> (chosen: Vec<Reward>)
    ensures
        views(chosen@) == views(all@).filter(|r: RewardView| r.state == state),
{
    let ghost wanted = |r: RewardView| r.state == state;
    let mut chosen: Vec<Reward> = Vec::new();
    let mut k: usize = 0;
    proof {
        reveal(Seq::filter);
        assert(views(all@).take(0) =~= Seq::<RewardView>::empty());
        assert(views(chosen@) =~= Seq::<RewardView>::empty());
    }
    while k < all.len()
        invariant
            k <= all.len(),
            wanted == (|r: RewardView| r.state == state),
            views(chosen@) == views(all@).take(k as int).filter(wanted),
        decreases all.len() - k,
    {
        proof {
            reveal(Seq::filter);
            assert(views(all@).take(k + 1).drop_last() =~= views(all@).take(k as int));
            assert(views(all@).take(k + 1).last() == all@[k as int]@);
        }
        if all[k].state == state {
            let copy = all[k].clone();
            let ghost earlier = chosen@;
            chosen.push(copy);
            assert(views(chosen@) =~= views(earlier).push(all@[k as int]@));
        }
        k += 1;
    }
    assert(views(all@).take(k as int) =~= views(all@));
    chosen
}

impl Contract {
    /// The points of `account_id`, which must have a name.
    pub fn get_reward_points(&self, account_id: &String) -> (r: PointsResponse)
        requires
            self.wf(),
        ensures
            if account_id@.len() == 0 {
                fails_with(r, empty_account_error())
            } else {
                r == Response::<u32, ContractError>::Success(
                    self@.reward_points.balance(account_id@),
                )
            },
    {
        self.reward_points.get_points(account_id)
    }

    /// Makes a reward for the caller. No stored reward is written over.
    pub fn add_reward(&mut self, title: String, description: String, cost: u32, ctx: &Context) -> (r:
        RewardActionResponse)
        requires
            old(self).wf(),
        ensures
            final(self).wf(),
            match add_reward_error(old(self)@, title@, description@, cost, *ctx) {
                Some(e) => fails_with(r, e) && *final(self) == *old(self),
                None => names(r, entity_id("reward"@, ctx.caller@, ctx.now)) && add_reward_effect(
                    old(self)@,
                    final(self)@,
                    title@,
                    description@,
                    cost,
                    *ctx,
                ),
            },
    {
        let reward = match Reward::new(title, description, cost, ctx.caller.clone(), ctx) {
            Ok(reward) => reward,
            Err(e) => {
                return Response::Error(ContractError::from_reward(e));
            },
        };
        let reward_id = reward.id.clone();
        if self.rewards.find(&reward_id).is_some() {
            return Response::Error(
                ContractError::operation("Reward already exists: ", reward_id.as_str()),
            );
        }
        proof {
            lemma_entity_id_made_for("reward"@, reward.owner_id@, ctx.now);
        }
        register(&mut self.rewards, &mut self.rewards_per_owner, reward);
        Response::Success(reward_id)
    }

    /// Gives a reward of the caller a new title, description and cost.
    pub fn update_reward(
        &mut self,
        reward_id: RewardId,
        title: String,
        description: String,
        cost: u32,
        ctx: &Context,
    ) -> (r: RewardActionResponse)
        requires
            old(self).wf(),
        ensures
            final(self).wf(),
            match update_reward_error(old(self)@, reward_id@, title@, description@, cost, *ctx) {
                Some(e) => fails_with(r, e) && *final(self) == *old(self),
                None => names(r, reward_id@) && update_reward_effect(
                    old(self)@,
                    final(self)@,
                    reward_id@,
                    title@,
                    description@,
                    cost,
                ),
            },
    {
        let place = match locate(&self.rewards, &self.rewards_per_owner, &reward_id) {
            Some(place) => place,
            None => {
                return Response::Error(
                    ContractError::missing("Reward", "Reward ", reward_id.as_str(), " not found"),
                );
            },
        };
        let mut reward = self.rewards.value_at(place).clone();
        if let Err(e) = reward.validate_ownership(ctx) {
            return Response::Error(ContractError::AccessError(e));
        }
        reward.title = title;
        reward.description = description;
        reward.cost = cost;
        if let Err(e) = reward.validate(ctx) {
            return Response::Error(ContractError::from_reward(e));
        }
        rewrite(&mut self.rewards, &self.rewards_per_owner, place, reward);
        Response::Success(reward_id)
    }

    /// Removes a reward of the caller.
    pub fn delete_reward(&mut self, reward_id: RewardId, ctx: &Context) -> (r:
        RewardActionResponse)
        requires
            old(self).wf(),
        ensures
            final(self).wf(),
            match delete_reward_error(old(self)@, reward_id@, *ctx) {
                Some(e) => fails_with(r, e) && *final(self) == *old(self),
                None => names(r, reward_id@) && delete_reward_effect(
                    old(self)@,
                    final(self)@,
                    reward_id@,
                    *ctx,
                ),
            },
    {
        match self.rewards.get(&reward_id) {
            Some(reward) => {
                if let Err(e) = reward.validate_ownership(ctx) {
                    return Response::Error(ContractError::AccessError(e));
                }
            },
            None => {
                return Response::Error(
                    ContractError::missing("Reward", "Reward ", reward_id.as_str(), " not found"),
                );
            },
        }
        let _ = unregister(&mut self.rewards, &mut self.rewards_per_owner, &reward_id);
        Response::Success(reward_id)
    }

    /// Buys a reward of the caller with the caller's points. Nothing is
    /// written unless the purchase goes through.
    pub fn redeem_reward(&mut self, reward_id: RewardId, ctx: &Context) -> (r:
        RewardActionResponse)
        requires
            old(self).wf(),
        ensures
            final(self).wf(),
            match redeem_reward_error(old(self)@, reward_id@, *ctx) {
                Some(e) => fails_with(r, e) && *final(self) == *old(self),
                None => names(r, reward_id@) && redeem_reward_effect(
                    old(self)@,
                    final(self)@,
                    reward_id@,
                    *ctx,
                ),
            },
    {
        let place = match locate(&self.rewards, &self.rewards_per_owner, &reward_id) {
            Some(place) => place,
            None => {
                return Response::Error(
                    ContractError::missing("Reward", "Reward ", reward_id.as_str(), " not found"),
                );
            },
        };
        let mut reward = self.rewards.value_at(place).clone();
        if let Err(e) = reward.validate_ownership(ctx) {
            return Response::Error(ContractError::AccessError(e));
        }
        let available_points = match self.reward_points.get_points(reward.get_owner_id()) {
            Response::Success(points) => points,
            Response::Error(e) => {
                return Response::Error(e);
            },
        };
        if !reward.is_affordable(available_points) {
            return Response::Error(insufficient_points(available_points, reward.cost as u64));
        }
        if let Err(e) = reward.transition_to(RewardState::Completed) {
            return Response::Error(ContractError::from_reward(e));
        }
        let new_points: u32 = available_points - reward.cost;
        self.reward_points.set_points(reward.get_owner_id(), new_points);
        rewrite(&mut self.rewards, &self.rewards_per_owner, place, reward);
        Response::Success(reward_id)
    }

    /// The active rewards of `owner_id`, in the order in which they were made, which a
    /// deletion leaves as it is for the rest.
    pub fn get_rewards_by_owner(&self, owner_id: String) -> (r: RewardListResponse)
        requires
            self.wf(),
        ensures
            if !self@.rewards_per_owner.has_owner(owner_id@) {
                fails_with(r, missing_error("Reward"@, "No rewards found for "@, owner_id@, ""@))
            } else if rewards_in_state(self@, owner_id@, RewardState::Active).len() == 0 {
                fails_with(
                    r,
                    missing_error("Reward"@, "No active rewards found for "@, owner_id@, ""@),
                )
            } else {
                r matches Response::Success(list) && views(list@) == rewards_in_state(
                    self@,
                    owner_id@,
                    RewardState::Active,
                )
            },
    {
        let all = match owned_entities(&self.rewards, &self.rewards_per_owner, &owner_id) {
            Some(all) => all,
            None => {
                return Response::Error(
                    ContractError::missing("Reward", "No rewards found for ", owner_id.as_str(), ""),
                );
            },
        };
        assert(views(all@) =~= owned_views(self.rewards, self.rewards_per_owner, owner_id@));
        let rewards = select_rewards(&all, RewardState::Active);
        if rewards.len() == 0 {
            return Response::Error(
                ContractError::missing(
                    "Reward",
                    "No active rewards found for ",
                    owner_id.as_str(),
                    "",
                ),
            );
        }
        Response::Success(rewards)
    }

    /// The rewards of `owner_id` that were redeemed, in the order in which they were made, which a
    /// deletion leaves as it is for the rest.
    pub fn get_retrieved_rewards(&self, owner_id: String) -> (r: RewardListResponse)
        requires
            self.wf(),
        ensures
            if !self@.rewards_per_owner.has_owner(owner_id@) {
                fails_with(r, missing_error("Reward"@, "No rewards found for "@, owner_id@, ""@))
            } else if rewards_in_state(self@, owner_id@, RewardState::Completed).len() == 0 {
                fails_with(
                    r,
                    missing_error("Reward"@, "No completed rewards found for "@, owner_id@, ""@),
                )
            } else {
                r matches Response::Success(list) && views(list@) == rewards_in_state(
                    self@,
                    owner_id@,
                    RewardState::Completed,
                )
            },
    {
        let all = match owned_entities(&self.rewards, &self.rewards_per_owner, &owner_id) {
            Some(all) => all,
            None => {
                return Response::Error(
                    ContractError::missing("Reward", "No rewards found for ", owner_id.as_str(), ""),
                );
            },
        };
        assert(views(all@) =~= owned_views(self.rewards, self.rewards_per_owner, owner_id@));
        let rewards = select_rewards(&all, RewardState::Completed);
        if rewards.len() == 0 {
            return Response::Error(
                ContractError::missing(
                    "Reward",
                    "No completed rewards found for ",
                    owner_id.as_str(),
                    "",
                ),
            );
        }
        Response::Success(rewards)
    }
}

} // verus!
