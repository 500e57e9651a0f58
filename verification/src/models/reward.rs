//! Rewards: what the owner may buy with points.

use vstd::prelude::*;
use vstd::string::*;
use crate::context::Context;
use crate::models::config::{
    MAX_DESCRIPTION_LENGTH, MAX_TITLE_LENGTH, REWARD_BASE_STORAGE, REWARD_MAX_STORAGE,
};
use crate::models::traits::{
    add_bytes, build_metrics, clamp_u64, quota_verdict, Ownable, OwnershipError, Storable,
    StorageError, StorageMetrics,
};
use crate::registry::Entity;
use crate::text::{
    byte_len, entity_id, has_forbidden, has_forbidden_char, lemma_trimmed_idempotent,
    lemma_trimmed_is_trimmed, lemma_trimmed_keeps_clean, make_entity_id, text_bytes, trim_text,
    trimmed,
};

verus! {

pub type RewardId = String;

#[derive(Debug, Clone, Copy, PartialEq, Eq, Structural)]
pub enum RewardState {
    Active,
    Completed,
}

#[derive(Debug, Clone, Copy, PartialEq, Eq, Structural)]
pub enum RewardAction {
    Complete,
    Update,
    Delete,
    View,
}

#[derive(Debug, Clone, Copy, PartialEq, Eq, Structural)]
pub enum RewardError {
    Validation(RewardValidationError),
    Storage(StorageError),
    Access(OwnershipError),
    State(RewardStateError),
}

#[allow(inconsistent_fields)]
#[derive(Debug, Clone, Copy, PartialEq, Eq, Structural)]
pub enum RewardValidationError {
    Title { reason: RewardTitleError, current_length: usize },
    Description { reason: RewardDescriptionError, current_length: usize },
    Cost { reason: RewardCostError, provided_cost: u32 },
}

#[derive(Debug, Clone, Copy, PartialEq, Eq, Structural)]
pub enum RewardTitleError {
    Empty,
    TooLong,
    InvalidCharacters,
}

#[derive(Debug, Clone, Copy, PartialEq, Eq, Structural)]
pub enum RewardDescriptionError {
    TooLong,
    InvalidCharacters,
}

#[derive(Debug, Clone, Copy, PartialEq, Eq, Structural)]
pub enum RewardCostError {
    Invalid,
}

#[derive(Debug, Clone, Copy, PartialEq, Eq, Structural)]
pub enum RewardStateError {
    InvalidTransition { from: RewardState, to: RewardState },
    InvalidActionForState { state: RewardState, action: RewardAction },
}

#[derive(Debug, PartialEq, Eq)]
pub struct Reward {
    pub id: RewardId,
    pub title: String,
    pub description: String,
    /// The price in points.
    pub cost: u32,
    pub state: RewardState,
    pub owner_id: String,
}

/// A reward as a mathematical value.
pub struct RewardView {
    pub id: Seq<char>,
    pub title: Seq<char>,
    pub description: Seq<char>,
    pub cost: u32,
    pub state: RewardState,
    pub owner_id: Seq<char>,
}

impl View for Reward {
    type V = RewardView;

    open spec fn view(&self) -> RewardView {
        RewardView {
            id: self.id@,
            title: self.title@,
            description: self.description@,
            cost: self.cost,
            state: self.state,
            owner_id: self.owner_id@,
        }
    }
}

/// What the rules on titles say of a text: something is left of it when
/// it is trimmed, and it has at most 256 characters, none of them
/// forbidden.
pub open spec fn reward_title_verdict(title: Seq<char>) -> Result<(), RewardValidationError> {
    if trimmed(title).len() == 0 {
        Err(RewardValidationError::Title { reason: RewardTitleError::Empty, current_length: 0 })
    } else if title.len() > MAX_TITLE_LENGTH {
        Err(
            RewardValidationError::Title {
                reason: RewardTitleError::TooLong,
                current_length: title.len() as usize,
            },
        )
    } else if has_forbidden(title) {
        Err(
            RewardValidationError::Title {
                reason: RewardTitleError::InvalidCharacters,
                current_length: title.len() as usize,
            },
        )
    } else {
        Ok(())
    }
}

/// What the rules on descriptions say of a text: at most 1024 characters,
/// none of them forbidden.
pub open spec fn reward_description_verdict(description: Seq<char>) -> Result<
    (),
    RewardValidationError,
> {
    if description.len() > MAX_DESCRIPTION_LENGTH {
        Err(
            RewardValidationError::Description {
                reason: RewardDescriptionError::TooLong,
                current_length: description.len() as usize,
            },
        )
    } else if has_forbidden(description) {
        Err(
            RewardValidationError::Description {
                reason: RewardDescriptionError::InvalidCharacters,
                current_length: description.len() as usize,
            },
        )
    } else {
        Ok(())
    }
}

/// What the rule on costs says: any cost but the largest `u32`.
pub open spec fn cost_verdict(cost: u32) -> Result<(), RewardValidationError> {
    if cost == u32::MAX {
        Err(RewardValidationError::Cost { reason: RewardCostError::Invalid, provided_cost: cost })
    } else {
        Ok(())
    }
}

/// The bytes in a reward's fields of variable length: its identifier,
/// title, description and owner.
pub open spec fn reward_dynamic_bytes(reward: RewardView) -> nat {
    byte_len(reward.id) + byte_len(reward.title) + byte_len(reward.description) + byte_len(
        reward.owner_id,
    )
}

/// What the quota says of a reward.
pub open spec fn reward_quota_verdict(reward: RewardView, ctx: Context) -> Result<
    (),
    StorageError,
> {
    quota_verdict(
        REWARD_BASE_STORAGE + reward_dynamic_bytes(reward),
        REWARD_MAX_STORAGE,
        ctx.byte_cost,
        ctx.balance,
    )
}

/// The reward as validation leaves it: with its title trimmed once the
/// title has passed, and its description trimmed once the description has
/// passed after it.
pub open spec fn reward_normalized(reward: RewardView) -> RewardView {
    if reward_title_verdict(reward.title) is Err {
        reward
    } else if reward_description_verdict(reward.description) is Err {
        RewardView { title: trimmed(reward.title), ..reward }
    } else {
        RewardView {
            title: trimmed(reward.title),
            description: trimmed(reward.description),
            ..reward
        }
    }
}

/// What validation says of a reward: the first rule that it breaks, in the
/// order title, description, cost, quota. The quota is held against the
/// reward with its texts trimmed.
pub open spec fn reward_verdict(reward: RewardView, ctx: Context) -> Result<(), RewardError> {
    if let Err(e) = reward_title_verdict(reward.title) {
        Err(RewardError::Validation(e))
    } else if let Err(e) = reward_description_verdict(reward.description) {
        Err(RewardError::Validation(e))
    } else if let Err(e) = cost_verdict(reward.cost) {
        Err(RewardError::Validation(e))
    } else if let Err(e) = reward_quota_verdict(reward_normalized(reward), ctx) {
        Err(RewardError::Storage(e))
    } else {
        Ok(())
    }
}

/// The reward that `Reward::new` makes of its arguments at the time `now`,
/// before validation.
pub open spec fn fresh_reward(
    title: Seq<char>,
    description: Seq<char>,
    cost: u32,
    owner: Seq<char>,
    now: u64,
) -> RewardView {
    RewardView {
        id: entity_id("reward"@, owner, now),
        title,
        description,
        cost,
        state: RewardState::Active,
        owner_id: owner,
    }
}

/// A title and a description in the form in which they are stored: the
/// title with 1 to 256 characters, the description with at most 1024,
/// both trimmed and without forbidden characters.
pub open spec fn reward_texts_in_form(title: Seq<char>, description: Seq<char>) -> bool {
    &&& 1 <= title.len() <= MAX_TITLE_LENGTH
    &&& trimmed(title) == title
    &&& !has_forbidden(title)
    &&& description.len() <= MAX_DESCRIPTION_LENGTH
    &&& trimmed(description) == description
    &&& !has_forbidden(description)
}

/// A reward that passes validation is left with its texts in the form in
/// which they are stored.
pub proof fn lemma_reward_validated_texts(reward: RewardView, ctx: Context)
    requires
        reward_verdict(reward, ctx) is Ok,
    ensures
        reward_texts_in_form(
            reward_normalized(reward).title,
            reward_normalized(reward).description,
        ),
{
    lemma_trimmed_is_trimmed(reward.title);
    lemma_trimmed_is_trimmed(reward.description);
    lemma_trimmed_keeps_clean(reward.title);
    lemma_trimmed_keeps_clean(reward.description);
    lemma_trimmed_idempotent(reward.title);
    lemma_trimmed_idempotent(reward.description);
}

/// Validation is idempotent: a reward that has passed validation passes
/// it again, under the same conditions, and is not changed by it again.
pub proof fn lemma_reward_validation_idempotent(reward: RewardView, ctx: Context)
    requires
        reward_verdict(reward, ctx) is Ok,
    ensures
        reward_verdict(reward_normalized(reward), ctx) is Ok,
        reward_normalized(reward_normalized(reward)) == reward_normalized(reward),
{
    lemma_reward_validated_texts(reward, ctx);
    let once = reward_normalized(reward);
    assert(reward_title_verdict(once.title) is Ok);
    assert(reward_description_verdict(once.description) is Ok);
}

/// The rules that a reward keeps besides the quota.
pub trait RewardValidation: Sized {
    /// The reward as a mathematical value.
    spec fn record(&self) -> RewardView;

    /// Checks the title and, where it passes, trims it.
    fn validate_title(&mut self) -> (r: Result<(), RewardValidationError>)
        ensures
            r == reward_title_verdict(old(self).record().title),
            final(self).record() == (if r is Ok {
                RewardView { title: trimmed(old(self).record().title), ..old(self).record() }
            } else {
                old(self).record()
            }),
    ;

    /// Checks the description and, where it passes, trims it.
    fn validate_description(&mut self) -> (r: Result<(), RewardValidationError>)
        ensures
            r == reward_description_verdict(old(self).record().description),
            final(self).record() == (if r is Ok {
                RewardView {
                    description: trimmed(old(self).record().description),
                    ..old(self).record()
                }
            } else {
                old(self).record()
            }),
    ;

    fn validate_cost(&mut self) -> (r: Result<(), RewardValidationError>)
        ensures
            r == cost_verdict(old(self).record().cost),
            final(self).record() == old(self).record(),
    ;

    /// A completed reward is closed to every action.
    fn validate_state_for_action(&self, action: RewardAction) -> (r: Result<
        (),
        RewardStateError,
    >)
        ensures
            r == (if self.record().state == RewardState::Completed {
                Err::<(), RewardStateError>(
                    RewardStateError::InvalidActionForState {
                        state: self.record().state,
                        action,
                    },
                )
            } else {
                Ok(())
            }),
    ;
}

impl RewardValidation for Reward {
    open spec fn record(&self) -> RewardView {
        self@
    }

    fn validate_title(&mut self) -> (r: Result<(), RewardValidationError>) {
        let trimmed_title = trim_text(self.title.as_str());
        if trimmed_title.as_str().unicode_len() == 0 {
            return Err(
                RewardValidationError::Title {
                    reason: RewardTitleError::Empty,
                    current_length: 0,
                },
            );
        }
        let length = self.title.as_str().unicode_len();
        if length > MAX_TITLE_LENGTH {
            return Err(
                RewardValidationError::Title {
                    reason: RewardTitleError::TooLong,
                    current_length: length,
                },
            );
        }
        if has_forbidden_char(self.title.as_str()) {
            return Err(
                RewardValidationError::Title {
                    reason: RewardTitleError::InvalidCharacters,
                    current_length: length,
                },
            );
        }
        self.title = trimmed_title;
        Ok(())
    }

    fn validate_description(&mut self) -> (r: Result<(), RewardValidationError>) {
        let length = self.description.as_str().unicode_len();
        if length > MAX_DESCRIPTION_LENGTH {
            return Err(
                RewardValidationError::Description {
                    reason: RewardDescriptionError::TooLong,
                    current_length: length,
                },
            );
        }
        if has_forbidden_char(self.description.as_str()) {
            return Err(
                RewardValidationError::Description {
                    reason: RewardDescriptionError::InvalidCharacters,
                    current_length: length,
                },
            );
        }
        self.description = trim_text(self.description.as_str());
        Ok(())
    }

    fn validate_cost(&mut self) -> (r: Result<(), RewardValidationError>) {
        if self.cost == u32::MAX {
            Err(
                RewardValidationError::Cost {
                    reason: RewardCostError::Invalid,
                    provided_cost: self.cost,
                },
            )
        } else {
            Ok(())
        }
    }

    fn validate_state_for_action(&self, action: RewardAction) -> (r: Result<
        (),
        RewardStateError,
    >) {
        if self.state == RewardState::Completed {
            Err(RewardStateError::InvalidActionForState { state: self.state, action })
        } else {
            Ok(())
        }
    }
}

impl Ownable for Reward {
    open spec fn owner(&self) -> Seq<char> {
        self.owner_id@
    }

    fn get_owner_id(&self) -> (owner: &String) {
        &self.owner_id
    }
}

impl Entity for Reward {
    open spec fn kind() -> Seq<char> {
        "reward"@
    }

    open spec fn key(&self) -> Seq<char> {
        self.id@
    }

    fn get_id(&self) -> (id: &String) {
        &self.id
    }

    fn kind_name() -> (name: &'static str) {
        "reward"
    }
}

impl Storable for Reward {
    const BASE_STORAGE: u64 = REWARD_BASE_STORAGE;

    const MAX_STORAGE: u64 = REWARD_MAX_STORAGE;

    open spec fn dynamic_bytes(&self) -> nat {
        reward_dynamic_bytes(self@)
    }

    fn calculate_storage_metrics(&self, ctx: &Context) -> (m: StorageMetrics) {
        let mut dynamic_size: u64 = add_bytes(0, text_bytes(&self.id));
        dynamic_size = add_bytes(dynamic_size, text_bytes(&self.title));
        dynamic_size = add_bytes(dynamic_size, text_bytes(&self.description));
        dynamic_size = add_bytes(dynamic_size, text_bytes(&self.owner_id));
        assert(dynamic_size == clamp_u64(reward_dynamic_bytes(self@) as int));
        build_metrics(REWARD_BASE_STORAGE, dynamic_size, ctx.byte_cost)
    }

    proof fn budget_is_bounded() {
    }
}

impl Clone for Reward {
    fn clone(&self) -> (copy: Self)
        ensures
            copy@ == self@,
    {
        Reward {
            id: self.id.clone(),
            title: self.title.clone(),
            description: self.description.clone(),
            cost: self.cost,
            state: self.state,
            owner_id: self.owner_id.clone(),
        }
    }
}

impl Reward {
    /// An active reward for `owner_id`, made at the time of the call and
    /// accepted only where validation passes.
    pub fn new(title: String, description: String, cost: u32, owner_id: String, ctx: &Context) -> (r:
        Result<Self, RewardError>)
        ensures
            match r {
                Ok(reward) => reward@ == reward_normalized(
                    fresh_reward(title@, description@, cost, owner_id@, ctx.now),
                ) && reward_verdict(
                    fresh_reward(title@, description@, cost, owner_id@, ctx.now),
                    *ctx,
                ) is Ok && reward_texts_in_form(reward@.title, reward@.description),
                Err(e) => reward_verdict(
                    fresh_reward(title@, description@, cost, owner_id@, ctx.now),
                    *ctx,
                ) == Err::<(), RewardError>(e),
            },
    {
        let mut reward = Self {
            id: make_entity_id("reward", owner_id.as_str(), ctx.now),
            title,
            description,
            cost,
            owner_id,
            state: RewardState::Active,
        };
        let ghost draft = reward@;
        match reward.validate(ctx) {
            Ok(_) => {
                proof {
                    lemma_reward_validated_texts(draft, *ctx);
                }
                Ok(reward)
            },
            Err(e) => Err(e),
        }
    }

    /// Holds the reward against its rules in their fixed order and trims
    /// its title and description as far as they pass.
    pub fn validate(&mut self, ctx: &Context) -> (r: Result<(), RewardError>)
        ensures
            r == reward_verdict(old(self)@, *ctx),
            final(self)@ == reward_normalized(old(self)@),
    {
        match self.validate_title() {
            Ok(_) => {},
            Err(e) => {
                return Err(RewardError::Validation(e));
            },
        }
        match self.validate_description() {
            Ok(_) => {},
            Err(e) => {
                return Err(RewardError::Validation(e));
            },
        }
        match self.validate_cost() {
            Ok(_) => {},
            Err(e) => {
                return Err(RewardError::Validation(e));
            },
        }
        match self.validate_storage(ctx) {
            Ok(_) => {},
            Err(e) => {
                return Err(RewardError::Storage(e));
            },
        }
        Ok(())
    }

    /// Completes an active reward; no other transition exists.
    pub fn transition_to(&mut self, new_state: RewardState) -> (r: Result<(), RewardError>)
        ensures
            r == (if old(self)@.state == RewardState::Active && new_state
                == RewardState::Completed {
                Ok::<(), RewardError>(())
            } else {
                Err(
                    RewardError::State(
                        RewardStateError::InvalidTransition {
                            from: old(self)@.state,
                            to: new_state,
                        },
                    ),
                )
            }),
            final(self)@ == (if r is Ok {
                RewardView { state: new_state, ..old(self)@ }
            } else {
                old(self)@
            }),
    {
        if self.state == RewardState::Active && new_state == RewardState::Completed {
            self.state = new_state;
            Ok(())
        } else {
            Err(
                RewardError::State(
                    RewardStateError::InvalidTransition { from: self.state, to: new_state },
                ),
            )
        }
    }

    /// Whether `available_points` cover the cost.
    pub fn is_affordable(&self, available_points: u32) -> (affordable: bool)
        ensures
            affordable == (available_points >= self.cost),
    {
        match available_points.checked_sub(self.cost) {
            Some(_) => true,
            None => false,
        }
    }
}

} // verus!
