use codechain_state::address::{Address, MetadataAddress, RegularAccountAddress, ShardAddress, H256};
use codechain_state::item::{Account, ActionData, Metadata, RegularAccount, Shard};
use codechain_state::top_cache::{TopAddress, TopCache, Write};
use std::collections::BTreeMap;

/// A store of bytes by key, as a trie offers it.
type Trie = BTreeMap<Vec<u8>, Vec<u8>>;

fn h256_bytes(h: &H256) -> Vec<u8> {
    let mut bytes = h.hi.to_be_bytes().to_vec();
    bytes.extend_from_slice(&h.lo.to_be_bytes());
    bytes
}

fn key_of(a: &TopAddress) -> Vec<u8> {
    match a {
        TopAddress::Account(a) => {
            let mut bytes = vec![b'A'];
            bytes.extend_from_slice(&a.hi.to_be_bytes());
            bytes.extend_from_slice(&a.lo.to_be_bytes());
            bytes
        }
        TopAddress::RegularAccount(a) => [vec![b'R'], h256_bytes(&a.0)].concat(),
        TopAddress::Metadata(a) => [vec![b'M'], h256_bytes(&a.0)].concat(),
        TopAddress::Shard(a) => [vec![b'S'], h256_bytes(&a.0)].concat(),
        TopAddress::ActionData(a) => [vec![b'D'], h256_bytes(a)].concat(),
    }
}

fn encode_account(account: &Account) -> Vec<u8> {
    [account.balance().to_be_bytes(), account.seq().to_be_bytes()].concat()
}

fn decode_account(bytes: &[u8]) -> Account {
    let balance = u64::from_be_bytes(bytes[..8].try_into().unwrap());
    let seq = u64::from_be_bytes(bytes[8..16].try_into().unwrap());
    Account::new(balance, seq)
}

fn encode(write: &Write<'_>) -> Option<Vec<u8>> {
    match write {
        Write::Account(_, value) => value.map(encode_account),
        Write::RegularAccount(_, value) => value.map(|r| h256_bytes(&r.owner_public())),
        Write::Metadata(_, value) => value.map(|m| {
            [
                m.number_of_shards().to_be_bytes().to_vec(),
                m.number_of_initial_shards().to_be_bytes().to_vec(),
                m.seq().to_be_bytes().to_vec(),
            ]
            .concat()
        }),
        Write::Shard(_, value) => value.map(|s| h256_bytes(&s.root())),
        Write::ActionData(_, value) => value.map(|d| d.bytes().clone()),
    }
}

/// Commits the cache to the trie and returns the addresses written, in the order of the
/// writes. The trie refuses the write with the number `fail_at`.
fn commit(cache: &mut TopCache, trie: &mut Trie, fail_at: Option<usize>) -> Result<Vec<TopAddress>, String> {
    let mut written = Vec::new();
    cache.commit(|write: Write<'_>| {
        let address = write.address();
        if fail_at == Some(written.len()) {
            return Err(format!("the trie refused the write for {:?}", address));
        }
        match encode(&write) {
            Some(bytes) => {
                trie.insert(key_of(&address), bytes);
            }
            None => {
                trie.remove(&key_of(&address));
            }
        }
        written.push(address);
        Ok(())
    })?;
    Ok(written)
}

fn fetch_account(trie: &Trie, a: &Address) -> Result<Option<Account>, String> {
    Ok(trie.get(&key_of(&TopAddress::Account(*a))).map(|bytes| decode_account(bytes)))
}

fn account_mut<'a>(cache: &'a mut TopCache, trie: &Trie, a: &Address) -> &'a mut Account {
    cache.account_mut(a, |a| fetch_account(trie, a)).unwrap()
}

/// A store that holds nothing.
fn nothing<K, T>(_: &K) -> Result<Option<T>, String> {
    Ok(None)
}

/// A store that must not be asked.
fn unasked<K, T>(_: &K) -> Result<Option<T>, String> {
    panic!("the store is asked for a resident address")
}

fn empty() -> TopCache {
    TopCache::new(vec![], vec![], vec![], vec![], vec![])
}

fn a() -> Address {
    Address::new(0, 0xa)
}

fn b() -> Address {
    Address::new(0, 0xb)
}

#[test]
fn transfer_under_a_checkpoint_is_committed() {
    let mut trie = Trie::new();
    let mut cache = TopCache::new(vec![(a(), Account::new(10, 0))], vec![], vec![], vec![], vec![]);
    cache.checkpoint();
    account_mut(&mut cache, &trie, &a()).sub_balance(3);
    account_mut(&mut cache, &trie, &b()).add_balance(3);
    assert_eq!(commit(&mut cache, &mut trie, None), Ok(vec![TopAddress::Account(a()), TopAddress::Account(b())]));

    let stored_a = decode_account(&trie[&key_of(&TopAddress::Account(a()))]);
    let stored_b = decode_account(&trie[&key_of(&TopAddress::Account(b()))]);
    assert_eq!(stored_a.balance(), 7);
    assert_eq!(stored_b.balance(), 3);
    assert_eq!(trie.len(), 2);
    assert_eq!(cache.account(&a(), unasked), Ok(Some(&Account::new(7, 0))));
    assert_eq!(cache.account(&b(), unasked), Ok(Some(&Account::new(3, 0))));
    assert_eq!(cache.depth(), 1);
}

#[test]
fn new_seeds_every_kind() {
    let owner = H256::new(7, 7);
    let mut cache = TopCache::new(
        vec![(a(), Account::new(10, 1))],
        vec![(RegularAccountAddress(H256::new(0, 1)), RegularAccount::new(owner))],
        vec![(MetadataAddress(H256::new(0, 2)), Metadata::new(3))],
        vec![(ShardAddress(H256::new(0, 3)), Shard::new(H256::new(9, 9)))],
        vec![(H256::new(0, 4), ActionData::new(vec![1, 2]))],
    );
    assert_eq!(cache.depth(), 0);
    assert_eq!(cache.account(&a(), unasked), Ok(Some(&Account::new(10, 1))));
    assert_eq!(
        cache.regular_account(&RegularAccountAddress(H256::new(0, 1)), unasked),
        Ok(Some(&RegularAccount::new(owner)))
    );
    assert_eq!(cache.metadata(&MetadataAddress(H256::new(0, 2)), unasked), Ok(Some(&Metadata::new(3))));
    assert_eq!(cache.shard(&ShardAddress(H256::new(0, 3)), unasked), Ok(Some(&Shard::new(H256::new(9, 9)))));
    assert_eq!(cache.action_data(&H256::new(0, 4), unasked), Ok(Some(&ActionData::new(vec![1, 2]))));
    assert_eq!(cache.account(&b(), nothing), Ok(None));
    assert!(cache.next_write().is_none());
}

#[test]
fn reads_go_to_the_store_once() {
    let mut trie = Trie::new();
    trie.insert(key_of(&TopAddress::Account(a())), encode_account(&Account::new(5, 2)));
    let mut cache = empty();
    assert_eq!(cache.account(&a(), |a| fetch_account(&trie, a)), Ok(Some(&Account::new(5, 2))));
    assert_eq!(cache.account(&a(), unasked), Ok(Some(&Account::new(5, 2))));
    assert_eq!(cache.account(&b(), |a| fetch_account(&trie, a)), Ok(None));
    assert_eq!(cache.account(&b(), unasked), Ok(None));
    assert_eq!(cache.cached_accounts(), vec![(a(), Some(Account::new(5, 2))), (b(), None)]);
    assert!(cache.next_write().is_none());
}

#[test]
fn store_errors_are_handed_on() {
    let mut cache = empty();
    let failed: Result<Option<&Shard>, String> =
        cache.shard(&ShardAddress(H256::new(0, 1)), |_| Err("corrupted node".to_string()));
    assert_eq!(failed, Err("corrupted node".to_string()));
    assert!(cache.metadata_mut(&MetadataAddress(H256::zero()), |_| Err(5u32)).is_err());
    assert!(cache.action_data_mut(&H256::zero(), |_| Err(5u32)).is_err());
    assert!(cache.cached_shards().is_empty());
    assert!(cache.cached_metadata().is_empty());
    assert!(cache.cached_action_data().is_empty());
    assert!(cache.next_write().is_none());
}

#[test]
fn checkpoints_move_the_five_caches_together() {
    let mut cache = TopCache::new(
        vec![(a(), Account::new(10, 0))],
        vec![],
        vec![(MetadataAddress(H256::zero()), Metadata::new(1))],
        vec![(ShardAddress(H256::new(0, 1)), Shard::new(H256::zero()))],
        vec![],
    );

    cache.checkpoint();
    cache.checkpoint();
    assert_eq!(cache.depth(), 2);
    cache.account_mut(&a(), unasked).unwrap().set_balance(0);
    cache.shard_mut(&ShardAddress(H256::new(0, 1)), unasked).unwrap().set_root(H256::new(5, 5));
    assert_eq!(cache.metadata_mut(&MetadataAddress(H256::zero()), unasked).unwrap().add_shard(), 1);
    cache.remove_action_data(&H256::new(0, 9));
    cache.remove_regular_account(&RegularAccountAddress(H256::new(0, 8)));
    cache.discard_checkpoint();
    assert_eq!(cache.depth(), 1);
    assert_eq!(cache.account(&a(), unasked), Ok(Some(&Account::new(0, 0))));

    cache.revert_to_checkpoint();
    assert_eq!(cache.depth(), 0);
    assert_eq!(cache.account(&a(), unasked), Ok(Some(&Account::new(10, 0))));
    assert_eq!(cache.shard(&ShardAddress(H256::new(0, 1)), unasked), Ok(Some(&Shard::new(H256::zero()))));
    assert_eq!(cache.metadata(&MetadataAddress(H256::zero()), unasked), Ok(Some(&Metadata::new(1))));
    assert!(cache.cached_action_data().is_empty());
    assert!(cache.cached_regular_accounts().is_empty());
    assert!(cache.next_write().is_none());
}

#[test]
fn commit_goes_through_the_kinds_in_order() {
    let mut trie = Trie::new();
    let mut cache = empty();
    cache.remove_action_data(&H256::new(0, 1));
    cache.remove_shard(&ShardAddress(H256::new(0, 2)));
    cache.metadata_mut(&MetadataAddress(H256::new(0, 3)), nothing).unwrap().increase_seq();
    cache.remove_regular_account(&RegularAccountAddress(H256::new(0, 4)));
    cache.remove_account(&b());
    cache.remove_account(&a());

    assert_eq!(
        commit(&mut cache, &mut trie, None),
        Ok(vec![
            TopAddress::Account(a()),
            TopAddress::Account(b()),
            TopAddress::RegularAccount(RegularAccountAddress(H256::new(0, 4))),
            TopAddress::Metadata(MetadataAddress(H256::new(0, 3))),
            TopAddress::Shard(ShardAddress(H256::new(0, 2))),
            TopAddress::ActionData(H256::new(0, 1)),
        ])
    );
    assert_eq!(trie.len(), 1);
    assert!(cache.next_write().is_none());
}

#[test]
fn failed_commit_keeps_the_kinds_written_before() {
    let mut trie = Trie::new();
    let mut cache = empty();
    account_mut(&mut cache, &trie, &a()).add_balance(1);
    cache.shard_mut(&ShardAddress(H256::new(0, 2)), nothing).unwrap().set_root(H256::new(1, 1));
    *cache.action_data_mut(&H256::new(0, 3), nothing).unwrap() = ActionData::new(vec![4, 5]);

    assert_eq!(
        commit(&mut cache, &mut trie, Some(1)),
        Err(format!("the trie refused the write for {:?}", TopAddress::Shard(ShardAddress(H256::new(0, 2)))))
    );
    assert_eq!(trie.len(), 1);
    assert!(trie.contains_key(&key_of(&TopAddress::Account(a()))));
    assert!(matches!(cache.next_write(), Some(Write::Shard(_, Some(_)))));

    assert_eq!(
        commit(&mut cache, &mut trie, None),
        Ok(vec![TopAddress::Shard(ShardAddress(H256::new(0, 2))), TopAddress::ActionData(H256::new(0, 3))])
    );
    assert_eq!(trie[&key_of(&TopAddress::ActionData(H256::new(0, 3)))], vec![4, 5]);
    assert_eq!(trie.len(), 3);
}

#[test]
fn commit_by_steps_marks_each_write() {
    let mut cache = empty();
    cache.remove_account(&a());
    cache.remove_shard(&ShardAddress(H256::new(0, 2)));
    let first = cache.next_write().map(|write| write.address());
    assert_eq!(first, Some(TopAddress::Account(a())));
    cache.flushed(&TopAddress::Account(a()));
    let second = cache.next_write().map(|write| write.address());
    assert_eq!(second, Some(TopAddress::Shard(ShardAddress(H256::new(0, 2)))));
    cache.flushed(&TopAddress::Shard(ShardAddress(H256::new(0, 2))));
    assert!(cache.next_write().is_none());
    cache.flushed(&TopAddress::Metadata(MetadataAddress(H256::zero())));
    assert!(cache.cached_metadata().is_empty());
}

#[test]
fn cached_records_are_sorted_by_address() {
    let mut cache = TopCache::new(
        vec![(Address::new(1, 0), Account::new(1, 0)), (a(), Account::new(10, 0))],
        vec![(RegularAccountAddress(H256::new(0, 1)), RegularAccount::new(H256::new(3, 3)))],
        vec![(MetadataAddress(H256::new(2, 0)), Metadata::new(2)), (MetadataAddress(H256::new(1, 5)), Metadata::new(1))],
        vec![(ShardAddress(H256::new(0, 2)), Shard::new(H256::zero()))],
        vec![(H256::new(0, 2), ActionData::new(vec![2])), (H256::new(0, 1), ActionData::new(vec![1]))],
    );
    cache.remove_account(&b());
    cache.remove_regular_account(&RegularAccountAddress(H256::new(0, 2)));
    cache.remove_shard(&ShardAddress(H256::new(0, 1)));

    assert_eq!(
        cache.cached_accounts(),
        vec![(a(), Some(Account::new(10, 0))), (b(), None), (Address::new(1, 0), Some(Account::new(1, 0)))]
    );
    assert_eq!(
        cache.cached_regular_accounts(),
        vec![
            (RegularAccountAddress(H256::new(0, 1)), Some(RegularAccount::new(H256::new(3, 3)))),
            (RegularAccountAddress(H256::new(0, 2)), None),
        ]
    );
    assert_eq!(
        cache.cached_metadata(),
        vec![
            (MetadataAddress(H256::new(1, 5)), Some(Metadata::new(1))),
            (MetadataAddress(H256::new(2, 0)), Some(Metadata::new(2))),
        ]
    );
    assert_eq!(
        cache.cached_shards(),
        vec![(ShardAddress(H256::new(0, 1)), None), (ShardAddress(H256::new(0, 2)), Some(Shard::new(H256::zero())))]
    );
    assert_eq!(
        cache.cached_action_data(),
        vec![(H256::new(0, 1), Some(ActionData::new(vec![1]))), (H256::new(0, 2), Some(ActionData::new(vec![2])))]
    );
}

#[test]
fn regular_account_is_written_through_its_reference() {
    let address = RegularAccountAddress(H256::new(0, 1));
    let mut cache = empty();
    {
        let record = cache.regular_account_mut(&address, nothing).unwrap();
        assert_eq!(*record, RegularAccount::new(H256::zero()));
        *record = RegularAccount::new(H256::new(4, 2));
    }
    assert_eq!(cache.regular_account(&address, unasked), Ok(Some(&RegularAccount::new(H256::new(4, 2)))));
    match cache.next_write() {
        Some(write) => assert_eq!(write.address(), TopAddress::RegularAccount(address)),
        None => panic!("a written address is dirty"),
    }
}

#[test]
fn clone_copies_the_checkpoints() {
    let mut cache = TopCache::new(vec![(a(), Account::new(10, 0))], vec![], vec![], vec![], vec![]);
    cache.checkpoint();
    cache.account_mut(&a(), unasked).unwrap().set_balance(1);
    let mut copy = cache.clone();
    cache.discard_checkpoint();
    assert_eq!(copy.depth(), 1);
    copy.revert_to_checkpoint();
    assert_eq!(copy.account(&a(), unasked), Ok(Some(&Account::new(10, 0))));
    assert_eq!(cache.account(&a(), unasked), Ok(Some(&Account::new(1, 0))));
    assert_eq!(cache.depth(), 0);
}

#[test]
fn removed_records_read_as_none() {
    let mut cache = TopCache::new(vec![(a(), Account::new(10, 0))], vec![], vec![], vec![], vec![]);
    cache.remove_account(&a());
    cache.remove_account(&b());
    cache.remove_action_data(&H256::new(0, 1));
    assert_eq!(cache.account(&a(), unasked), Ok(None));
    assert_eq!(cache.account(&b(), unasked), Ok(None));
    assert_eq!(cache.action_data(&H256::new(0, 1), unasked), Ok(None));
    // A write to a removed address starts from a fresh record.
    assert_eq!(*cache.account_mut(&a(), unasked).unwrap(), Account::new(0, 0));
}
