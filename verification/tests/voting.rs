use std::collections::HashMap;


use near_sdk::{AccountId, Balance, EpochHeight, MockedBlockchain, VMContext};

use voting::contract::VotingContract;
use voting::model::VotingError;

fn get_context(predecessor_account_id: AccountId) -> VMContext {
    get_context_with_epoch_height(predecessor_account_id, 0)
}

fn get_context_with_epoch_height(
    predecessor_account_id: AccountId,
    epoch_height: EpochHeight,
) -> VMContext {
    VMContext {
        current_account_id: "alice_near".to_string(),
        signer_account_id: "bob_near".to_string(),
        signer_account_pk: vec![0, 1, 2],
        predecessor_account_id,
        input: vec![],
        block_index: 0,
        block_timestamp: 0,
        account_balance: 0,
        account_locked_balance: 0,
        storage_usage: 1000,
        attached_deposit: 0,
        prepaid_gas: 2 * 10u64.pow(14),
        random_seed: vec![0, 1, 2],
        is_view: false,
        output_data_receivers: vec![],
        epoch_height,
    }
}

/// Installs a mocked blockchain with `context` and `validators`, keeping the storage of
/// the one installed before.
fn set_env(context: VMContext, validators: HashMap<AccountId, Balance>) {
    let storage = match near_sdk::env::take_blockchain_interface() {
        Some(mut bi) => bi.as_mut_mocked_blockchain().unwrap().take_storage(),
        None => Default::default(),
    };
    near_sdk::env::set_blockchain_interface(Box::new(MockedBlockchain::new(
        context,
        Default::default(),
        Default::default(),
        vec![],
        storage,
        validators,
    )));
}

fn votes_of(contract: &VotingContract) -> HashMap<String, u128> {
    contract.get_votes().into_iter().collect()
}

fn validators_of(pairs: Vec<(&str, Balance)>) -> HashMap<AccountId, Balance> {
    pairs.into_iter().map(|(a, s)| (a.to_string(), s)).collect()
}

#[test]
fn test_voting_simple() {
    let context = get_context("test0".to_string());
    let validators = (0..10).map(|i| (format!("test{}", i), 10)).collect::<HashMap<_, _>>();
    set_env(context, validators.clone());
    let mut contract = VotingContract::new().unwrap();

    for i in 0..7 {
        let mut context = get_context(format!("test{}", i));
        set_env(context.clone(), validators.clone());
        assert_eq!(contract.vote(true), Ok(()));
        context.is_view = true;
        set_env(context, validators.clone());
        assert_eq!(contract.get_total_voted_stake(), (10 * (i + 1), 100));
        assert_eq!(
            votes_of(&contract),
            (0..=i).map(|i| (format!("test{}", i), 10)).collect::<HashMap<_, _>>()
        );
        assert_eq!(contract.get_votes().len() as u128, i + 1);
        if i < 6 {
            assert!(contract.get_result().is_none());
        } else {
            assert!(contract.get_result().is_some());
        }
    }
}

#[test]
fn test_voting_with_epoch_change() {
    let validators = (0..10).map(|i| (format!("test{}", i), 10)).collect::<HashMap<_, _>>();
    let context = get_context("test0".to_string());
    set_env(context, validators.clone());
    let mut contract = VotingContract::new().unwrap();

    for i in 0..7 {
        let context = get_context_with_epoch_height(format!("test{}", i), i);
        set_env(context, validators.clone());
        assert_eq!(contract.vote(true), Ok(()));
        assert_eq!(contract.get_votes().len() as u64, i + 1);
        if i < 6 {
            assert!(contract.get_result().is_none());
        } else {
            assert!(contract.get_result().is_some());
        }
    }
}

#[test]
fn test_validator_stake_change() {
    let mut validators = validators_of(vec![("test1", 40), ("test2", 10), ("test3", 10)]);
    let context = get_context_with_epoch_height("test1".to_string(), 1);
    set_env(context, validators.clone());

    let mut contract = VotingContract::new().unwrap();
    assert_eq!(contract.vote(true), Ok(()));
    validators.insert("test1".to_string(), 50);
    let context = get_context_with_epoch_height("test2".to_string(), 2);
    set_env(context, validators.clone());
    assert_eq!(contract.ping(), Ok(()));
    assert!(contract.get_result().is_some());
}

#[test]
fn test_withdraw_votes() {
    let validators = validators_of(vec![("test1", 10), ("test2", 10)]);
    let context = get_context_with_epoch_height("test1".to_string(), 1);
    set_env(context, validators.clone());
    let mut contract = VotingContract::new().unwrap();
    assert_eq!(contract.vote(true), Ok(()));
    assert_eq!(contract.get_votes().len(), 1);
    let context = get_context_with_epoch_height("test1".to_string(), 2);
    set_env(context, validators.clone());
    assert_eq!(contract.vote(false), Ok(()));
    assert!(contract.get_votes().is_empty());
}

#[test]
fn test_validator_kick_out() {
    let mut validators = validators_of(vec![("test1", 40), ("test2", 10), ("test3", 10)]);
    let context = get_context_with_epoch_height("test1".to_string(), 1);
    set_env(context, validators.clone());

    let mut contract = VotingContract::new().unwrap();
    assert_eq!(contract.vote(true), Ok(()));
    assert_eq!(contract.get_total_voted_stake().0, 40);
    validators.remove(&"test1".to_string());
    let context = get_context_with_epoch_height("test2".to_string(), 2);
    set_env(context, validators.clone());
    assert_eq!(contract.ping(), Ok(()));
    assert_eq!(contract.get_total_voted_stake().0, 0);
}

#[test]
fn non_validator_vote_is_refused_and_changes_nothing() {
    let validators = validators_of(vec![("alice_near", 100), ("bob_near", 100)]);
    set_env(get_context("bob.near".to_string()), validators);
    let mut contract = VotingContract::new().unwrap();
    assert_eq!(contract.vote(true), Err(VotingError::NotValidator));
    assert!(contract.get_votes().is_empty());
    assert_eq!(contract.get_total_voted_stake().0, 0);
}

#[test]
fn single_validator_closes_the_vote_at_the_block_timestamp() {
    let validators = validators_of(vec![("alice.near", 100)]);
    let mut context = get_context("alice.near".to_string());
    context.block_timestamp = 1_234_567;
    set_env(context, validators);
    let mut contract = VotingContract::new().unwrap();
    assert_eq!(contract.vote(true), Ok(()));
    assert_eq!(contract.get_result(), Some(1_234_567));
}

#[test]
fn new_is_refused_where_state_is_stored() {
    let mut storage: HashMap<Vec<u8>, Vec<u8>> = HashMap::new();
    storage.insert(b"STATE".to_vec(), vec![0]);
    near_sdk::env::set_blockchain_interface(Box::new(MockedBlockchain::new(
        get_context("alice.near".to_string()),
        Default::default(),
        Default::default(),
        vec![],
        storage,
        HashMap::new(),
    )));
    assert!(matches!(VotingContract::new(), Err(VotingError::AlreadyInitialized)));
}
