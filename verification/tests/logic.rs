use std::collections::HashMap;

use near_sdk::{MockedBlockchain, VMContext};

use voting::contract::{passes_threshold, VotingContract};
use voting::model::VotingError;

/// A poll with no stored state, on a mocked blockchain (read only by
/// `get_total_voted_stake` for the total validator stake, here 100).
fn fresh() -> VotingContract {
    let context = VMContext {
        current_account_id: "alice_near".to_string(),
        signer_account_id: "bob_near".to_string(),
        signer_account_pk: vec![0, 1, 2],
        predecessor_account_id: "carol_near".to_string(),
        input: vec![],
        block_index: 0,
        block_timestamp: 0,
        account_balance: 0,
        account_locked_balance: 0,
        storage_usage: 1000,
        attached_deposit: 0,
        prepaid_gas: 2 * 10u64.pow(14),
        random_seed: vec![0, 1, 2],
        is_view: false,
        output_data_receivers: vec![],
        epoch_height: 0,
    };
    let validators: HashMap<String, u128> = vec![("v".to_string(), 100)].into_iter().collect();
    near_sdk::env::set_blockchain_interface(Box::new(MockedBlockchain::new(
        context,
        Default::default(),
        Default::default(),
        vec![],
        HashMap::new(),
        validators,
    )));
    match VotingContract::initialize(false) {
        Ok(c) => c,
        Err(_) => panic!("a poll with no stored state is created"),
    }
}

fn votes_of(contract: &VotingContract) -> HashMap<String, u128> {
    contract.get_votes().into_iter().collect()
}

/// A vote in epoch 0, the epoch of a fresh poll, so that no reweighing happens.
fn vote_now(
    contract: &mut VotingContract,
    account: &str,
    is_vote: bool,
    stake: u128,
    total_stake: u128,
    timestamp: u64,
) -> Result<(), VotingError> {
    contract.apply_vote(0, &vec![], total_stake, timestamp, account.to_string(), is_vote, stake)
}

#[test]
fn threshold_is_strictly_more_than_two_thirds() {
    assert_eq!(passes_threshold(66, 100), Ok(false));
    assert_eq!(passes_threshold(67, 100), Ok(true));
    assert_eq!(passes_threshold(70, 100), Ok(true));
    assert_eq!(passes_threshold(40, 60), Ok(false));
    assert_eq!(passes_threshold(0, 0), Ok(false));
    assert_eq!(passes_threshold(1, 0), Ok(true));
}

#[test]
fn threshold_refuses_an_overflowing_total() {
    assert_eq!(passes_threshold(1, u128::MAX), Err(VotingError::Overflow));
    assert_eq!(passes_threshold(1, u128::MAX / 2 + 1), Err(VotingError::Overflow));
    assert_eq!(passes_threshold(u128::MAX, u128::MAX / 2), Ok(true));
}

#[test]
fn initialize_refuses_stored_state() {
    assert!(matches!(VotingContract::initialize(true), Err(VotingError::AlreadyInitialized)));
    let c = fresh();
    assert_eq!(c.get_result(), None);
    assert!(c.get_votes().is_empty());
    assert_eq!(c.get_total_voted_stake(), (0, 100));
}

#[test]
fn votes_close_the_poll_past_two_thirds() {
    let mut c = fresh();
    assert_eq!(vote_now(&mut c, "a", true, 40, 60, 7), Ok(()));
    assert_eq!(c.get_result(), None);
    assert_eq!(vote_now(&mut c, "b", true, 10, 60, 9), Ok(()));
    assert_eq!(c.get_result(), Some(9));
    assert_eq!(c.get_total_voted_stake().0, 50);
}

#[test]
fn vote_without_stake_is_refused() {
    let mut c = fresh();
    assert_eq!(vote_now(&mut c, "a", true, 0, 60, 7), Err(VotingError::NotValidator));
    assert!(c.get_votes().is_empty());
}

#[test]
fn withdrawal_undoes_a_vote() {
    let mut c = fresh();
    assert_eq!(vote_now(&mut c, "a", true, 10, 100, 1), Ok(()));
    assert_eq!(vote_now(&mut c, "b", true, 20, 100, 1), Ok(()));
    assert_eq!(vote_now(&mut c, "b", false, 0, 100, 1), Ok(()));
    assert_eq!(votes_of(&c), vec![("a".to_string(), 10)].into_iter().collect::<HashMap<_, _>>());
    assert_eq!(c.get_total_voted_stake().0, 10);
    assert_eq!(vote_now(&mut c, "nobody", false, 0, 100, 1), Ok(()));
    assert_eq!(c.get_total_voted_stake().0, 10);
}

#[test]
fn repeated_vote_counts_once() {
    let mut c = fresh();
    assert_eq!(vote_now(&mut c, "a", true, 10, 100, 1), Ok(()));
    assert_eq!(vote_now(&mut c, "a", true, 10, 100, 1), Ok(()));
    assert_eq!(c.get_votes(), vec![("a".to_string(), 10)]);
    assert_eq!(c.get_total_voted_stake().0, 10);
    assert_eq!(vote_now(&mut c, "a", true, 30, 100, 1), Ok(()));
    assert_eq!(c.get_votes(), vec![("a".to_string(), 30)]);
    assert_eq!(c.get_total_voted_stake().0, 30);
}

#[test]
fn overflowing_vote_is_refused_and_changes_nothing() {
    let mut c = fresh();
    assert_eq!(vote_now(&mut c, "a", true, u128::MAX - 5, 0, 1), Ok(()));
    assert_eq!(c.get_result(), Some(1));
    let mut d = fresh();
    let quarter = u128::MAX / 4;
    assert_eq!(vote_now(&mut d, "a", true, quarter, u128::MAX / 2, 1), Ok(()));
    assert_eq!(d.get_result(), None);
    let rest = u128::MAX - quarter + 1;
    assert_eq!(vote_now(&mut d, "b", true, rest, u128::MAX / 2, 1), Err(VotingError::Overflow));
    assert_eq!(d.get_votes(), vec![("a".to_string(), quarter)]);
    assert_eq!(d.get_total_voted_stake().0, quarter);
}

#[test]
fn new_epoch_weighs_votes_by_current_stake() {
    let mut c = fresh();
    assert_eq!(vote_now(&mut c, "a", true, 10, 100, 1), Ok(()));
    assert_eq!(vote_now(&mut c, "b", true, 20, 100, 1), Ok(()));
    assert_eq!(vote_now(&mut c, "c", true, 30, 100, 1), Ok(()));
    assert_eq!(c.observe_epoch(1, &vec![15, 0, 5], 100, 2), Ok(()));
    assert_eq!(c.get_votes(), vec![("a".to_string(), 15), ("c".to_string(), 5)]);
    assert_eq!(c.get_total_voted_stake().0, 20);
    assert_eq!(c.get_result(), None);
    // a second ping in the same epoch changes nothing
    assert_eq!(c.observe_epoch(1, &vec![1000, 1000], 100, 3), Ok(()));
    assert_eq!(c.get_votes(), vec![("a".to_string(), 15), ("c".to_string(), 5)]);
    assert_eq!(c.get_total_voted_stake().0, 20);
}

#[test]
fn new_epoch_can_close_the_poll() {
    let mut c = fresh();
    assert_eq!(vote_now(&mut c, "a", true, 40, 100, 1), Ok(()));
    assert_eq!(c.observe_epoch(2, &vec![50], 60, 42), Ok(()));
    assert_eq!(c.get_result(), Some(42));
}

#[test]
fn new_epoch_with_overflowing_stakes_is_refused() {
    let mut c = fresh();
    assert_eq!(vote_now(&mut c, "a", true, 1, 100, 1), Ok(()));
    assert_eq!(vote_now(&mut c, "b", true, 1, 100, 1), Ok(()));
    assert_eq!(c.observe_epoch(3, &vec![u128::MAX, 1], 100, 2), Err(VotingError::Overflow));
    assert_eq!(c.get_votes(), vec![("a".to_string(), 1), ("b".to_string(), 1)]);
    assert_eq!(c.get_total_voted_stake().0, 2);
}

#[test]
fn vote_closed_by_its_own_reweighing_is_not_recorded() {
    let mut c = fresh();
    assert_eq!(vote_now(&mut c, "a", true, 10, 100, 1), Ok(()));
    assert_eq!(
        c.apply_vote(1, &vec![90], 100, 5, "b".to_string(), true, 10),
        Ok(())
    );
    assert_eq!(c.get_result(), Some(5));
    assert_eq!(c.get_votes(), vec![("a".to_string(), 90)]);
}

#[test]
fn stored_state_round_trips() {
    let mut c = fresh();
    assert_eq!(vote_now(&mut c, "a", true, 10, 100, 1), Ok(()));
    assert_eq!(vote_now(&mut c, "b", true, 20, 100, 1), Ok(()));
    assert_eq!(c.observe_epoch(4, &vec![10, 20], 100, 2), Ok(()));
    let (votes, total, result, epoch) = c.into_parts();
    assert_eq!(votes, vec![("a".to_string(), 10), ("b".to_string(), 20)]);
    assert_eq!((total, result, epoch), (30, None, 4));
    let d = match VotingContract::restore(votes, total, result, epoch) {
        Some(d) => d,
        None => panic!("a consistent state is restored"),
    };
    assert_eq!(d.get_votes(), vec![("a".to_string(), 10), ("b".to_string(), 20)]);
    assert_eq!(d.get_result(), None);
    assert_eq!(d.into_parts().3, 4);
}

#[test]
fn inconsistent_stored_state_is_refused() {
    let twice = vec![("a".to_string(), 10), ("a".to_string(), 5)];
    assert!(VotingContract::restore(twice, 15, None, 0).is_none());
    let no_stake = vec![("a".to_string(), 10), ("b".to_string(), 0)];
    assert!(VotingContract::restore(no_stake, 10, None, 0).is_none());
    let wrong_total = vec![("a".to_string(), 10), ("b".to_string(), 5)];
    assert!(VotingContract::restore(wrong_total, 16, None, 0).is_none());
    let overflowing = vec![("a".to_string(), u128::MAX), ("b".to_string(), 1)];
    assert!(VotingContract::restore(overflowing, 0, None, 0).is_none());
    let fine = vec![("a".to_string(), 10), ("b".to_string(), 5)];
    assert!(VotingContract::restore(fine, 15, Some(3), 0).is_some());
}
