use codechain_state::address::{Address, CacheKey, MetadataAddress, RegularAccountAddress, ShardAddress, H256};
use codechain_state::item::{Account, ActionData, CacheableItem, Metadata, RegularAccount, Shard};

#[test]
fn hashes_are_ordered_by_the_upper_half_first() {
    assert!(H256::new(0, 5).precedes(&H256::new(0, 6)));
    assert!(H256::new(0, u128::MAX).precedes(&H256::new(1, 0)));
    assert!(!H256::new(1, 0).precedes(&H256::new(0, u128::MAX)));
    assert!(!H256::new(3, 3).precedes(&H256::new(3, 3)));
    assert!(H256::zero().precedes(&H256::new(0, 1)));
    assert_eq!(H256::zero(), H256::new(0, 0));
}

#[test]
fn addresses_are_ordered_like_their_numbers() {
    assert!(Address::new(0, 9).precedes(&Address::new(1, 0)));
    assert!(Address::new(2, 1).precedes(&Address::new(2, 2)));
    assert!(!Address::new(2, 2).precedes(&Address::new(2, 2)));
    assert!(!Address::new(2, 2).precedes(&Address::new(2, 1)));
    // The order that the cache keeps is the order that the derived comparison gives.
    assert!(Address::new(0, 9) < Address::new(1, 0));
    assert!(H256::new(0, u128::MAX) < H256::new(1, 0));
}

#[test]
fn wrapped_addresses_are_ordered_like_their_hashes() {
    assert!(RegularAccountAddress(H256::new(0, 1)).precedes(&RegularAccountAddress(H256::new(0, 2))));
    assert!(!MetadataAddress(H256::new(1, 0)).precedes(&MetadataAddress(H256::new(0, 2))));
    assert!(ShardAddress(H256::new(1, 0)).precedes(&ShardAddress(H256::new(1, 1))));
}

#[test]
fn fresh_records_are_empty() {
    assert_eq!(Account::fresh(), Account::new(0, 0));
    assert!(Account::fresh().is_null());
    assert_eq!(RegularAccount::fresh(), RegularAccount::new(H256::zero()));
    assert_eq!(Metadata::fresh(), Metadata::new(0));
    assert_eq!(Shard::fresh(), Shard::new(H256::zero()));
    assert_eq!(ActionData::fresh(), ActionData::new(vec![]));
    assert!(ActionData::fresh().is_null());
}

#[test]
fn duplicates_equal_what_they_copy() {
    assert_eq!(Account::new(5, 6).duplicate(), Account::new(5, 6));
    assert_eq!(RegularAccount::new(H256::new(1, 2)).duplicate(), RegularAccount::new(H256::new(1, 2)));
    assert_eq!(Metadata::new(4).duplicate(), Metadata::new(4));
    assert_eq!(Shard::new(H256::new(3, 4)).duplicate(), Shard::new(H256::new(3, 4)));
    assert_eq!(ActionData::new(vec![1, 2, 3]).duplicate(), ActionData::new(vec![1, 2, 3]));
}

#[test]
fn account_balance_and_seq_change_as_told() {
    let mut account = Account::new(10, 0);
    account.add_balance(5);
    assert_eq!(account.balance(), 15);
    account.sub_balance(15);
    assert_eq!(account.balance(), 0);
    assert!(account.is_null());
    account.inc_seq();
    assert_eq!(account.seq(), 1);
    assert!(!account.is_null());
    account.set_balance(u64::MAX);
    assert_eq!(account, Account::new(u64::MAX, 1));
}

#[test]
fn metadata_counts_shards() {
    let mut metadata = Metadata::new(2);
    assert_eq!(metadata.add_shard(), 2);
    assert_eq!(metadata.add_shard(), 3);
    assert_eq!(metadata.number_of_shards(), 4);
    assert_eq!(metadata.number_of_initial_shards(), 2);
    metadata.increase_seq();
    assert_eq!(metadata.seq(), 1);
}

#[test]
fn shard_and_action_data_hold_what_they_are_given() {
    let mut shard = Shard::new(H256::new(1, 1));
    shard.set_root(H256::new(2, 2));
    assert_eq!(shard.root(), H256::new(2, 2));
    let data = ActionData::new(vec![7, 8]);
    assert_eq!(data.bytes(), &vec![7, 8]);
    assert!(!data.is_null());
    assert_eq!(RegularAccount::new(H256::new(9, 9)).owner_public(), H256::new(9, 9));
}
