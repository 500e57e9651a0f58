//! What every operation is told about the call it serves.

use vstd::prelude::*;

verus! {

/// The caller's identity, the time of the call, and what the caller may
/// spend on storage at which price.
pub struct Context {
    /// Who makes the call.
    pub caller: String,
    /// The time of the call, in nanoseconds since the epoch.
    pub now: u64,
    /// What the caller has available to pay for storage.
    pub balance: u128,
    /// The price of one byte of storage.
    pub byte_cost: u128,
}

/// What the network charges for one byte of storage, in yoctoNEAR.
pub open spec fn protocol_byte_cost() -> u128 {
    10_000_000_000_000_000_000u128
}

/// `near_sdk::env::storage_byte_cost`, read out in yoctoNEAR by
/// `NearToken::as_yoctonear`: the network's fixed price of a byte, which
/// is 10^19 yoctoNEAR.
#[verifier::external_body]
fn storage_byte_cost() -> (price: u128)
    ensures
        price == protocol_byte_cost(),
{
    near_sdk::env::storage_byte_cost().as_yoctonear()
}

impl Context {
    /// The context of a call that pays the network's price for storage.
    pub fn at_protocol_cost(caller: String, now: u64, balance: u128) -> (ctx: Context)
        ensures
            ctx.caller == caller,
            ctx.now == now,
            ctx.balance == balance,
            ctx.byte_cost == protocol_byte_cost(),
    {
        Context { caller, now, balance, byte_cost: storage_byte_cost() }
    }


    /// The context of a call.
    pub fn new(caller: String, now: u64, balance: u128, byte_cost: u128) -> (ctx: Context)
        ensures
            ctx.caller == caller,
            ctx.now == now,
            ctx.balance == balance,
            ctx.byte_cost == byte_cost,
    {
        Context { caller, now, balance, byte_cost }
    }
}

} // verus!
