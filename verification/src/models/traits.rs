//! Ownership and the storage quota, shared by every entity.

use vstd::prelude::*;
use crate::context::Context;

verus! {

#[derive(Debug, Clone, Copy, PartialEq, Eq, Structural)]
pub enum StorageError {
    InsufficientBalance { required: u128, available: u128 },
    ExceedsMaxSize { size: u64, max_allowed: u64 },
}

/// The storage that an entity takes and what it costs.
#[derive(Debug, Clone, Copy, PartialEq, Eq, Structural)]
pub struct StorageMetrics {
    pub base_size: u64,
    pub dynamic_size: u64,
    pub total_bytes: u64,
    pub cost_per_byte: u128,
    pub total_cost: u128,
}

#[derive(Debug, Clone, Copy, PartialEq, Eq, Structural)]
pub enum OwnershipError {
    NotOwner,
}

/// `n`, or the largest `u64` where `n` is beyond it.
pub open spec fn clamp_u64(n: int) -> u64 {
    if n > u64::MAX {
        u64::MAX
    } else if n < 0 {
        0
    } else {
        n as u64
    }
}

/// `n`, or the largest `u128` where `n` is beyond it.
pub open spec fn clamp_u128(n: int) -> u128 {
    if n > u128::MAX {
        u128::MAX
    } else if n < 0 {
        0
    } else {
        n as u128
    }
}

/// The metrics of an entity with a fixed part of `base` bytes and
/// `dynamic` bytes in its fields of variable length, at `byte_cost` a byte.
/// A figure that does not fit its field is held at the field's largest value.
pub open spec fn metrics_of(base: u64, dynamic: nat, byte_cost: u128) -> StorageMetrics {
    StorageMetrics {
        base_size: base,
        dynamic_size: clamp_u64(dynamic as int),
        total_bytes: clamp_u64(base + dynamic),
        cost_per_byte: byte_cost,
        total_cost: clamp_u128(clamp_u64(base + dynamic) * byte_cost),
    }
}

/// The verdict of the quota on an entity of `size` bytes: it may not be
/// larger than `max`, and the balance must cover its cost.
pub open spec fn quota_verdict(size: int, max: u64, byte_cost: u128, balance: u128) -> Result<
    (),
    StorageError,
> {
    if size > max {
        Err(StorageError::ExceedsMaxSize { size: clamp_u64(size), max_allowed: max })
    } else if balance < size * byte_cost {
        Err(
            StorageError::InsufficientBalance {
                required: clamp_u128(size * byte_cost),
                available: balance,
            },
        )
    } else {
        Ok(())
    }
}

/// Adds a length to a byte count, holding the sum at the largest `u64`.
pub fn add_bytes(total: u64, len: usize) -> (sum: u64)
    ensures
        sum == clamp_u64(total + len),
{
    let len64: u64 = len as u64;
    if len64 > u64::MAX - total {
        u64::MAX
    } else {
        total + len64
    }
}

/// The metrics for `base` fixed bytes and `dynamic` further bytes, where
/// `dynamic` may stand for any count that it is the clamped value of.
pub fn build_metrics(base: u64, dynamic: u64, byte_cost: u128) -> (m: StorageMetrics)
    ensures
        forall|exact: nat| dynamic == clamp_u64(exact as int) ==> m == #[trigger] metrics_of(
            base,
            exact,
            byte_cost,
        ),
{
    let total_bytes: u64 = if dynamic > u64::MAX - base {
        u64::MAX
    } else {
        base + dynamic
    };
    let total_cost: u128 = match (total_bytes as u128).checked_mul(byte_cost) {
        Some(cost) => cost,
        None => u128::MAX,
    };
    StorageMetrics {
        base_size: base,
        dynamic_size: dynamic,
        total_bytes,
        cost_per_byte: byte_cost,
        total_cost,
    }
}

/// Holds a size in bytes against the budget `max` and the caller's balance.
pub fn check_quota(total_bytes: u64, max: u64, ctx: &Context) -> (r: Result<(), StorageError>)
    ensures
        r == quota_verdict(total_bytes as int, max, ctx.byte_cost, ctx.balance),
{
    if total_bytes > max {
        return Err(StorageError::ExceedsMaxSize { size: total_bytes, max_allowed: max });
    }
    match (total_bytes as u128).checked_mul(ctx.byte_cost) {
        Some(cost) => {
            if ctx.balance < cost {
                return Err(
                    StorageError::InsufficientBalance { required: cost, available: ctx.balance },
                );
            }
        },
        None => {
            return Err(
                StorageError::InsufficientBalance {
                    required: u128::MAX,
                    available: ctx.balance,
                },
            );
        },
    }
    Ok(())
}

/// An entity that belongs to one owner, who alone may change it.
pub trait Ownable: Sized {
    /// The owner's identity.
    spec fn owner(&self) -> Seq<char>;

    fn get_owner_id(&self) -> (owner: &String)
        ensures
            owner@ == self.owner(),
    ;

    /// Succeeds exactly when the caller is the owner.
    fn validate_ownership(&self, ctx: &Context) -> (r: Result<(), OwnershipError>)
        ensures
            r == (if ctx.caller@ == self.owner() {
                Ok::<(), OwnershipError>(())
            } else {
                Err(OwnershipError::NotOwner)
            }),
    {
        if *self.get_owner_id() == ctx.caller {
            Ok(())
        } else {
            Err(OwnershipError::NotOwner)
        }
    }
}

/// An entity's whole size in bytes: the fixed part and the fields of
/// variable length.
pub open spec fn storage_size<T: Storable>(entity: &T) -> int {
    T::BASE_STORAGE + entity.dynamic_bytes()
}

/// An entity whose storage is held against a quota.
pub trait Storable: Sized {
    /// The bytes that every entity of the type takes.
    const BASE_STORAGE: u64;

    /// The most bytes that an entity of the type may take.
    const MAX_STORAGE: u64;

    /// The bytes in the entity's fields of variable length.
    spec fn dynamic_bytes(&self) -> nat;

    fn calculate_storage_metrics(&self, ctx: &Context) -> (m: StorageMetrics)
        ensures
            m == metrics_of(Self::BASE_STORAGE, self.dynamic_bytes(), ctx.byte_cost),
    ;

    /// The budget leaves room below the largest count of bytes.
    proof fn budget_is_bounded()
        ensures
            Self::MAX_STORAGE < u64::MAX,
    ;

    /// The quota: the size within the type's budget, and its cost within
    /// the caller's balance. The entity is left as it is.
    fn validate_storage(&mut self, ctx: &Context) -> (r: Result<(), StorageError>)
        ensures
            *final(self) == *old(self),
            r == quota_verdict(
                Self::BASE_STORAGE + old(self).dynamic_bytes(),
                Self::MAX_STORAGE,
                ctx.byte_cost,
                ctx.balance,
            ),
    {
        let metrics = self.calculate_storage_metrics(ctx);
        let max = Self::MAX_STORAGE;
        proof {
            Self::budget_is_bounded();
        }
        let r = check_quota(metrics.total_bytes, max, ctx);
        proof {
            let size = Self::BASE_STORAGE + self.dynamic_bytes();
            assert(metrics.total_bytes == clamp_u64(size));
            if size <= u64::MAX {
                assert(metrics.total_bytes as int == size);
            } else {
                assert(metrics.total_bytes > max);
            }
        }
        r
    }
}

} // verus!
