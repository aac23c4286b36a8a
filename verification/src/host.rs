//! Reads of the NEAR host environment, through `near_sdk::env`.
//!
//! Every value here comes from the blockchain that runs the call, so nothing is
//! promised of it; the `reported_*` predicates say only that a value is one that a read
//! of the host returned, so that the operations can be held to the values the host gave
//! them without claiming that two reads agree. Each `near_sdk::env` read panics when no blockchain interface is
//! installed (outside a contract run or a mocked test blockchain); that condition lies
//! outside the arguments and is left unsaid.
use vstd::prelude::*;

verus! {

/// Calls `near_sdk::env::state_exists`: whether the contract already has stored state.
/// The result depends on storage, so no clause is stated.
#[verifier::external_body]
pub(crate) fn state_exists() -> bool {
    near_sdk::env::state_exists()
}

/// Calls `near_sdk::env::epoch_height`: the epoch of the block that runs the call.
#[verifier::external_body]
pub(crate) fn epoch_height() -> u64 {
    near_sdk::env::epoch_height()
}

/// Calls `near_sdk::env::validator_stake`: the current stake of `account_id`, zero where
/// it is not a validator.
#[verifier::external_body]
pub(crate) fn validator_stake(account_id: &String) -> u128 {
    near_sdk::env::validator_stake(account_id)
}

/// Calls `near_sdk::env::validator_total_stake`: the total stake of the validators of
/// the current epoch.
#[verifier::external_body]
pub(crate) fn validator_total_stake() -> u128 {
    near_sdk::env::validator_total_stake()
}

/// Calls `near_sdk::env::block_timestamp`: the timestamp of the block that runs the call,
/// in nanoseconds since the Unix epoch.
#[verifier::external_body]
pub(crate) fn block_timestamp() -> u64 {
    near_sdk::env::block_timestamp()
}

/// Calls `near_sdk::env::predecessor_account_id`: the account that made the call.
#[verifier::external_body]
pub(crate) fn predecessor_account_id() -> String {
    near_sdk::env::predecessor_account_id()
}

/// `exists` is what a read of `near_sdk::env::state_exists` returned.
pub closed spec fn reported_state_exists(exists: bool) -> bool {
    call_ensures(state_exists, (), exists)
}

/// `epoch` is an epoch height that a read of the host returned.
pub closed spec fn reported_epoch_height(epoch: u64) -> bool {
    call_ensures(epoch_height, (), epoch)
}

/// `stake` is what a read of the host returned as the current validator stake of the
/// account whose id is `account`.
pub closed spec fn reported_validator_stake(account: Seq<char>, stake: u128) -> bool {
    exists|id: String| id@ == account && #[trigger] call_ensures(validator_stake, (&id,), stake)
}

/// `total` is what a read of the host returned as the total validator stake.
pub closed spec fn reported_total_stake(total: u128) -> bool {
    call_ensures(validator_total_stake, (), total)
}

/// `timestamp` is a block timestamp that a read of the host returned.
pub closed spec fn reported_timestamp(timestamp: u64) -> bool {
    call_ensures(block_timestamp, (), timestamp)
}

/// `account` is the id of the calling account, as a read of the host returned it.
pub closed spec fn reported_caller(account: Seq<char>) -> bool {
    exists|id: String| id@ == account && #[trigger] call_ensures(predecessor_account_id, (), id)
}

pub(crate) proof fn lemma_reported_state_exists(exists: bool)
    requires
        call_ensures(state_exists, (), exists),
    ensures
        reported_state_exists(exists),
{
}

pub(crate) proof fn lemma_reported_epoch_height(epoch: u64)
    requires
        call_ensures(epoch_height, (), epoch),
    ensures
        reported_epoch_height(epoch),
{
}

pub(crate) proof fn lemma_reported_validator_stake(id: String, stake: u128)
    requires
        call_ensures(validator_stake, (&id,), stake),
    ensures
        reported_validator_stake(id@, stake),
{
}

pub(crate) proof fn lemma_reported_total_stake(total: u128)
    requires
        call_ensures(validator_total_stake, (), total),
    ensures
        reported_total_stake(total),
{
}

pub(crate) proof fn lemma_reported_timestamp(timestamp: u64)
    requires
        call_ensures(block_timestamp, (), timestamp),
    ensures
        reported_timestamp(timestamp),
{
}

pub(crate) proof fn lemma_reported_caller(id: String)
    requires
        call_ensures(predecessor_account_id, (), id),
    ensures
        reported_caller(id@),
{
}

} // verus!
