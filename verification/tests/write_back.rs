use codechain_state::address::{Address, H256};
use codechain_state::item::{Account, ActionData};
use codechain_state::model::Lookup;
use codechain_state::write_back::WriteBack;
use std::collections::BTreeMap;

type Store = BTreeMap<Address, Account>;
type Cache = WriteBack<Address, Account>;

fn addr(n: u128) -> Address {
    Address::new(0, n)
}

/// Reads `a` through the cache and counts the reads that reach the store.
fn read(cache: &mut Cache, store: &Store, reads: &mut usize, a: &Address) -> Option<Account> {
    let found: Result<Option<&Account>, String> = cache.get(a, |a| {
        *reads += 1;
        Ok(store.get(a).copied())
    });
    found.unwrap().copied()
}

/// Hands out the record at `a` for writing.
fn write<'a>(cache: &'a mut Cache, store: &Store, a: &Address) -> &'a mut Account {
    let found: Result<&mut Account, String> = cache.get_mut(a, |a| Ok(store.get(a).copied()));
    found.unwrap()
}

/// Commits the cache to the store and returns the addresses written, in the order of the
/// writes. The store refuses the write with the number `fail_at`.
fn commit(cache: &mut Cache, store: &mut Store, fail_at: Option<usize>) -> Result<Vec<Address>, String> {
    let mut written = Vec::new();
    cache.commit(|a: &Address, value: Option<&Account>| {
        if fail_at == Some(written.len()) {
            return Err(format!("the store refused the write for {:?}", a));
        }
        match value {
            Some(account) => {
                store.insert(*a, *account);
            }
            None => {
                store.remove(a);
            }
        }
        written.push(*a);
        Ok(())
    })?;
    Ok(written)
}

#[test]
fn seeded_entries_are_resident_and_clean() {
    let cache = Cache::new_with_iter(vec![(addr(2), Account::new(20, 0)), (addr(1), Account::new(10, 1))]);
    assert_eq!(cache.lookup(&addr(1)), Lookup::Resident(Some(&Account::new(10, 1))));
    assert_eq!(cache.lookup(&addr(2)), Lookup::Resident(Some(&Account::new(20, 0))));
    assert_eq!(cache.lookup(&addr(3)), Lookup::Missing);
    assert_eq!(cache.depth(), 0);
    assert!(cache.next_write().is_none());
}

#[test]
fn seed_keeps_the_later_of_two_pairs() {
    let cache = Cache::new_with_iter(vec![
        (addr(1), Account::new(10, 0)),
        (addr(2), Account::new(20, 0)),
        (addr(1), Account::new(11, 0)),
    ]);
    assert_eq!(cache.lookup(&addr(1)), Lookup::Resident(Some(&Account::new(11, 0))));
    assert_eq!(cache.items().len(), 2);
}

#[test]
fn empty_cache_misses_everything() {
    let cache = Cache::new();
    assert_eq!(cache.lookup(&addr(1)), Lookup::Missing);
    assert!(!cache.contains(&addr(1)));
    assert!(cache.items().is_empty());
    assert!(cache.next_write().is_none());
}

#[test]
fn get_reads_the_store_once() {
    let mut store = Store::new();
    store.insert(addr(1), Account::new(10, 0));
    let mut cache = Cache::new();
    let mut reads = 0;
    assert_eq!(read(&mut cache, &store, &mut reads, &addr(1)), Some(Account::new(10, 0)));
    assert_eq!(reads, 1);
    store.insert(addr(1), Account::new(99, 0));
    assert_eq!(read(&mut cache, &store, &mut reads, &addr(1)), Some(Account::new(10, 0)));
    assert_eq!(reads, 1);
    assert!(cache.next_write().is_none());
}

#[test]
fn get_of_an_absent_record_caches_the_absence() {
    let mut store = Store::new();
    let mut cache = Cache::new();
    let mut reads = 0;
    assert_eq!(read(&mut cache, &store, &mut reads, &addr(1)), None);
    assert_eq!(cache.lookup(&addr(1)), Lookup::Resident(None));
    store.insert(addr(1), Account::new(5, 0));
    assert_eq!(read(&mut cache, &store, &mut reads, &addr(1)), None);
    assert_eq!(reads, 1);
    assert!(cache.next_write().is_none());
}

#[test]
fn load_leaves_a_resident_address_alone() {
    let mut cache = Cache::new_with_iter(vec![(addr(1), Account::new(10, 0))]);
    cache.load(addr(1), Some(Account::new(77, 7)));
    assert_eq!(cache.lookup(&addr(1)), Lookup::Resident(Some(&Account::new(10, 0))));
    cache.remove(&addr(2));
    cache.load(addr(2), Some(Account::new(5, 0)));
    assert_eq!(cache.lookup(&addr(2)), Lookup::Resident(None));
}

#[test]
fn lookup_mut_of_a_missing_address_changes_nothing() {
    let mut cache = Cache::new();
    cache.checkpoint();
    assert!(matches!(cache.lookup_mut(&addr(1)), Lookup::Missing));
    assert!(!cache.contains(&addr(1)));
    assert!(cache.next_write().is_none());
    cache.revert_to_checkpoint();
    assert!(!cache.contains(&addr(1)));
}

#[test]
fn get_mut_starts_from_a_fresh_record_in_place_of_a_tombstone() {
    let store = Store::new();
    let mut cache = Cache::new();
    {
        let account = write(&mut cache, &store, &addr(1));
        assert_eq!(*account, Account::new(0, 0));
        account.add_balance(3);
    }
    assert_eq!(cache.lookup(&addr(1)), Lookup::Resident(Some(&Account::new(3, 0))));
    cache.remove(&addr(1));
    assert_eq!(*write(&mut cache, &store, &addr(1)), Account::new(0, 0));
}

#[test]
fn writes_are_read_back() {
    let store = Store::new();
    let mut cache = Cache::new_with_iter(vec![(addr(1), Account::new(10, 0))]);
    write(&mut cache, &store, &addr(1)).sub_balance(4);
    write(&mut cache, &store, &addr(1)).inc_seq();
    assert_eq!(cache.lookup(&addr(1)), Lookup::Resident(Some(&Account::new(6, 1))));
}

#[test]
fn remove_then_get_returns_none() {
    let mut store = Store::new();
    store.insert(addr(1), Account::new(10, 0));
    store.insert(addr(2), Account::new(20, 0));
    let mut cache = Cache::new_with_iter(vec![(addr(1), Account::new(10, 0))]);
    let mut reads = 0;
    cache.remove(&addr(1));
    cache.remove(&addr(2));
    cache.remove(&addr(3));
    cache.remove(&addr(3));
    assert_eq!(read(&mut cache, &store, &mut reads, &addr(1)), None);
    assert_eq!(read(&mut cache, &store, &mut reads, &addr(2)), None);
    assert_eq!(read(&mut cache, &store, &mut reads, &addr(3)), None);
    assert_eq!(reads, 0);
}

#[test]
fn remove_of_an_unloaded_address_is_committed_as_a_removal() {
    let mut store = Store::new();
    store.insert(addr(2), Account::new(20, 0));
    let mut cache = Cache::new();
    cache.remove(&addr(2));
    cache.remove(&addr(5));
    assert_eq!(commit(&mut cache, &mut store, None), Ok(vec![addr(2), addr(5)]));
    assert!(store.is_empty());
}

#[test]
fn revert_restores_value_and_dirty_flag() {
    let mut store = Store::new();
    store.insert(addr(1), Account::new(10, 0));
    let mut cache = Cache::new_with_iter(vec![(addr(2), Account::new(20, 0))]);
    write(&mut cache, &store, &addr(2)).add_balance(1);

    cache.checkpoint();
    write(&mut cache, &store, &addr(1)).set_balance(11);
    write(&mut cache, &store, &addr(2)).set_balance(22);
    cache.revert_to_checkpoint();

    assert_eq!(cache.depth(), 0);
    assert_eq!(cache.lookup(&addr(1)), Lookup::Resident(Some(&Account::new(10, 0))));
    assert_eq!(cache.lookup(&addr(2)), Lookup::Resident(Some(&Account::new(21, 0))));
    // The first address was clean before the checkpoint, the second dirty.
    assert_eq!(commit(&mut cache, &mut store, None), Ok(vec![addr(2)]));
}

#[test]
fn revert_of_a_removal_of_an_unloaded_address_unloads_it() {
    let mut store = Store::new();
    store.insert(addr(1), Account::new(10, 0));
    let mut cache = Cache::new();
    let mut reads = 0;
    cache.checkpoint();
    cache.remove(&addr(1));
    assert_eq!(cache.lookup(&addr(1)), Lookup::Resident(None));
    cache.revert_to_checkpoint();
    assert_eq!(cache.lookup(&addr(1)), Lookup::Missing);
    assert_eq!(read(&mut cache, &store, &mut reads, &addr(1)), Some(Account::new(10, 0)));
    assert_eq!(reads, 1);
}

#[test]
fn revert_leaves_untouched_addresses_alone() {
    let store = Store::new();
    let mut cache = Cache::new_with_iter(vec![(addr(1), Account::new(10, 0)), (addr(2), Account::new(20, 0))]);
    cache.checkpoint();
    write(&mut cache, &store, &addr(1)).set_balance(0);
    cache.load(addr(3), Some(Account::new(30, 0)));
    cache.revert_to_checkpoint();
    assert_eq!(cache.lookup(&addr(1)), Lookup::Resident(Some(&Account::new(10, 0))));
    assert_eq!(cache.lookup(&addr(2)), Lookup::Resident(Some(&Account::new(20, 0))));
    assert_eq!(cache.lookup(&addr(3)), Lookup::Resident(Some(&Account::new(30, 0))));
}

#[test]
fn snapshot_is_taken_once_per_frame() {
    let store = Store::new();
    let mut cache = Cache::new_with_iter(vec![(addr(1), Account::new(10, 0))]);
    cache.checkpoint();
    write(&mut cache, &store, &addr(1)).set_balance(11);
    write(&mut cache, &store, &addr(1)).set_balance(12);
    cache.remove(&addr(1));
    cache.revert_to_checkpoint();
    assert_eq!(cache.lookup(&addr(1)), Lookup::Resident(Some(&Account::new(10, 0))));
}

#[test]
fn nested_checkpoints_revert_one_by_one() {
    let store = Store::new();
    let mut cache = Cache::new_with_iter(vec![(addr(1), Account::new(10, 0))]);
    cache.checkpoint();
    write(&mut cache, &store, &addr(1)).set_balance(11);
    cache.checkpoint();
    write(&mut cache, &store, &addr(1)).set_balance(12);
    assert_eq!(cache.depth(), 2);
    cache.revert_to_checkpoint();
    assert_eq!(cache.lookup(&addr(1)), Lookup::Resident(Some(&Account::new(11, 0))));
    cache.revert_to_checkpoint();
    assert_eq!(cache.lookup(&addr(1)), Lookup::Resident(Some(&Account::new(10, 0))));
    assert_eq!(cache.depth(), 0);
}

#[test]
fn discard_keeps_the_outer_checkpoint_whole() {
    let store = Store::new();
    let mut cache = Cache::new_with_iter(vec![(addr(1), Account::new(10, 0))]);
    cache.checkpoint();
    write(&mut cache, &store, &addr(1)).set_balance(11);
    cache.checkpoint();
    write(&mut cache, &store, &addr(1)).set_balance(12);
    write(&mut cache, &store, &addr(2)).set_balance(2);
    cache.discard_checkpoint();
    assert_eq!(cache.depth(), 1);
    assert_eq!(cache.lookup(&addr(1)), Lookup::Resident(Some(&Account::new(12, 0))));
    assert_eq!(cache.lookup(&addr(2)), Lookup::Resident(Some(&Account::new(2, 0))));
    cache.revert_to_checkpoint();
    assert_eq!(cache.lookup(&addr(1)), Lookup::Resident(Some(&Account::new(10, 0))));
    assert_eq!(cache.lookup(&addr(2)), Lookup::Resident(None));
}

#[test]
fn discard_of_the_only_checkpoint_keeps_the_writes() {
    let store = Store::new();
    let mut cache = Cache::new_with_iter(vec![(addr(1), Account::new(10, 0))]);
    cache.checkpoint();
    write(&mut cache, &store, &addr(1)).set_balance(11);
    cache.discard_checkpoint();
    assert_eq!(cache.depth(), 0);
    assert_eq!(cache.lookup(&addr(1)), Lookup::Resident(Some(&Account::new(11, 0))));
}

#[test]
fn discard_without_a_checkpoint_changes_nothing() {
    let mut cache = Cache::new_with_iter(vec![(addr(1), Account::new(10, 0))]);
    cache.discard_checkpoint();
    assert_eq!(cache.depth(), 0);
    assert_eq!(cache.lookup(&addr(1)), Lookup::Resident(Some(&Account::new(10, 0))));
}

#[test]
fn commit_writes_the_dirty_entries_in_address_order() {
    let mut store = Store::new();
    store.insert(addr(4), Account::new(40, 0));
    store.insert(addr(9), Account::new(90, 0));
    let mut cache = Cache::new_with_iter(vec![(addr(9), Account::new(90, 0)), (addr(3), Account::new(30, 0))]);
    write(&mut cache, &store, &Address::new(1, 0)).set_balance(1);
    write(&mut cache, &store, &addr(7)).set_balance(7);
    write(&mut cache, &store, &addr(3)).set_balance(33);
    cache.remove(&addr(4));

    assert_eq!(
        commit(&mut cache, &mut store, None),
        Ok(vec![addr(3), addr(4), addr(7), Address::new(1, 0)])
    );
    assert_eq!(store.get(&addr(3)), Some(&Account::new(33, 0)));
    assert_eq!(store.get(&addr(4)), None);
    assert_eq!(store.get(&addr(7)), Some(&Account::new(7, 0)));
    assert_eq!(store.get(&Address::new(1, 0)), Some(&Account::new(1, 0)));
    // The clean entry was not written, and nothing is dirty any more.
    assert_eq!(store.get(&addr(9)), Some(&Account::new(90, 0)));
    assert_eq!(store.len(), 4);
    assert!(cache.next_write().is_none());
    assert_eq!(commit(&mut cache, &mut store, None), Ok(vec![]));
}

#[test]
fn next_write_hands_out_the_record_to_write() {
    let store = Store::new();
    let mut cache = Cache::new();
    write(&mut cache, &store, &addr(2)).set_balance(5);
    cache.remove(&addr(1));
    assert_eq!(cache.next_write(), Some((addr(1), None)));
    cache.flushed(&addr(1));
    assert_eq!(cache.next_write(), Some((addr(2), Some(&Account::new(5, 0)))));
    cache.flushed(&addr(2));
    assert_eq!(cache.next_write(), None);
}

#[test]
fn failed_commit_is_taken_up_again() {
    let mut store = Store::new();
    let mut cache = Cache::new();
    write(&mut cache, &store, &addr(1)).set_balance(1);
    write(&mut cache, &store, &addr(2)).set_balance(2);
    write(&mut cache, &store, &addr(3)).set_balance(3);

    assert!(commit(&mut cache, &mut store, Some(1)).is_err());
    assert_eq!(store.get(&addr(1)), Some(&Account::new(1, 0)));
    assert_eq!(store.len(), 1);
    assert_eq!(cache.lookup(&addr(2)), Lookup::Resident(Some(&Account::new(2, 0))));

    assert_eq!(commit(&mut cache, &mut store, None), Ok(vec![addr(2), addr(3)]));
    assert_eq!(store.len(), 3);
}

#[test]
fn flushed_of_an_unknown_address_changes_nothing() {
    let mut cache = Cache::new();
    cache.flushed(&addr(1));
    assert!(!cache.contains(&addr(1)));
}

#[test]
fn items_list_every_entry_in_address_order() {
    let store = Store::new();
    let mut cache = Cache::new_with_iter(vec![(Address::new(2, 0), Account::new(1, 0)), (addr(5), Account::new(50, 0))]);
    cache.remove(&addr(9));
    write(&mut cache, &store, &addr(1)).set_balance(10);
    assert_eq!(
        cache.items(),
        vec![
            (addr(1), Some(Account::new(10, 0))),
            (addr(5), Some(Account::new(50, 0))),
            (addr(9), None),
            (Address::new(2, 0), Some(Account::new(1, 0))),
        ]
    );
}

#[test]
fn cache_seeded_from_items_answers_without_the_store() {
    let mut store = Store::new();
    let mut first = Cache::new();
    write(&mut first, &store, &addr(1)).set_balance(10);
    write(&mut first, &store, &addr(2)).set_balance(20);
    first.remove(&addr(3));
    assert!(commit(&mut first, &mut store, None).is_ok());

    let seed: Vec<(Address, Account)> =
        first.items().into_iter().filter_map(|(a, value)| value.map(|value| (a, value))).collect();
    let seeded: Vec<Address> = seed.iter().map(|(a, _)| *a).collect();
    let mut second = Cache::new_with_iter(seed);
    let mut reads = 0;
    for a in seeded {
        let expected = match first.lookup(&a) {
            Lookup::Resident(value) => value.copied(),
            Lookup::Missing => panic!("a listed address is resident"),
        };
        assert_eq!(read(&mut second, &store, &mut reads, &a), expected);
    }
    assert_eq!(reads, 0);
    assert!(second.next_write().is_none());
}

#[test]
fn clone_is_independent() {
    let store = Store::new();
    let mut source = Cache::new_with_iter(vec![(addr(1), Account::new(10, 0))]);
    source.checkpoint();
    write(&mut source, &store, &addr(1)).set_balance(11);

    let mut copy = source.clone();
    assert_eq!(copy.depth(), 1);
    write(&mut copy, &store, &addr(1)).set_balance(12);
    copy.remove(&addr(2));

    assert_eq!(source.lookup(&addr(1)), Lookup::Resident(Some(&Account::new(11, 0))));
    assert_eq!(source.lookup(&addr(2)), Lookup::Missing);
    copy.revert_to_checkpoint();
    assert_eq!(copy.lookup(&addr(1)), Lookup::Resident(Some(&Account::new(10, 0))));
    assert_eq!(source.lookup(&addr(1)), Lookup::Resident(Some(&Account::new(11, 0))));
    source.revert_to_checkpoint();
    assert_eq!(source.lookup(&addr(1)), Lookup::Resident(Some(&Account::new(10, 0))));
}

#[test]
fn many_addresses_are_found_again() {
    let store = Store::new();
    let mut cache = Cache::new();
    for n in (0u128..200).rev() {
        write(&mut cache, &store, &addr((n * 7919) % 1009)).add_balance(1);
    }
    for n in 0u128..200 {
        let expected = Account::new(1, 0);
        assert_eq!(cache.lookup(&addr((n * 7919) % 1009)), Lookup::Resident(Some(&expected)));
    }
    let items = cache.items();
    assert_eq!(items.len(), 200);
    assert!(items.windows(2).all(|pair| pair[0].0 < pair[1].0));
}

#[test]
fn records_with_bytes_are_copied_for_checkpoints() {
    let key = H256::new(1, 2);
    let mut cache: WriteBack<H256, ActionData> = WriteBack::new_with_iter(vec![(key, ActionData::new(vec![1, 2, 3]))]);
    cache.checkpoint();
    match cache.lookup_mut(&key) {
        Lookup::Resident(data) => *data = ActionData::new(vec![9]),
        Lookup::Missing => panic!("a seeded address is resident"),
    }
    assert_eq!(cache.lookup(&key), Lookup::Resident(Some(&ActionData::new(vec![9]))));
    let copy = cache.clone();
    cache.revert_to_checkpoint();
    assert_eq!(cache.lookup(&key), Lookup::Resident(Some(&ActionData::new(vec![1, 2, 3]))));
    assert_eq!(copy.lookup(&key), Lookup::Resident(Some(&ActionData::new(vec![9]))));
    assert_eq!(copy.items(), vec![(key, Some(ActionData::new(vec![9])))]);
}

#[test]
fn get_hands_on_the_error_of_the_store() {
    let mut cache = Cache::new_with_iter(vec![(addr(1), Account::new(10, 0))]);
    let failed: Result<Option<&Account>, String> = cache.get(&addr(2), |_| Err("missing node".to_string()));
    assert_eq!(failed, Err("missing node".to_string()));
    assert!(!cache.contains(&addr(2)));
    // A resident address is answered without the store.
    let found: Result<Option<&Account>, String> = cache.get(&addr(1), |_| Err("missing node".to_string()));
    assert_eq!(found, Ok(Some(&Account::new(10, 0))));
}

#[test]
fn get_mut_hands_on_the_error_of_the_store() {
    let mut cache = Cache::new();
    cache.checkpoint();
    match cache.get_mut(&addr(1), |_| Err(7u8)) {
        Ok(_) => panic!("the store failed"),
        Err(code) => assert_eq!(code, 7),
    }
    assert!(!cache.contains(&addr(1)));
    assert!(cache.next_write().is_none());
    match cache.get_mut(&addr(1), |_| Ok::<_, u8>(Some(Account::new(4, 0)))) {
        Ok(account) => account.add_balance(1),
        Err(_) => panic!("the store answered"),
    }
    assert_eq!(cache.lookup(&addr(1)), Lookup::Resident(Some(&Account::new(5, 0))));
    cache.revert_to_checkpoint();
    assert_eq!(cache.lookup(&addr(1)), Lookup::Resident(Some(&Account::new(4, 0))));
    assert!(cache.next_write().is_none());
}

#[test]
fn commit_hands_on_the_error_of_the_store() {
    let mut store = Store::new();
    let mut cache = Cache::new();
    cache.remove(&addr(1));
    assert_eq!(
        commit(&mut cache, &mut store, Some(0)),
        Err(format!("the store refused the write for {:?}", addr(1)))
    );
    assert_eq!(cache.next_write(), Some((addr(1), None)));
}

#[test]
fn lookup_and_load_read_through_by_hand() {
    let mut cache = Cache::new();
    assert_eq!(cache.lookup(&addr(1)), Lookup::Missing);
    cache.load(addr(1), Some(Account::new(3, 1)));
    assert_eq!(cache.lookup(&addr(1)), Lookup::Resident(Some(&Account::new(3, 1))));
    match cache.lookup_mut(&addr(1)) {
        Lookup::Resident(account) => account.inc_seq(),
        Lookup::Missing => panic!("a loaded address is resident"),
    }
    assert_eq!(cache.next_write(), Some((addr(1), Some(&Account::new(3, 2)))));
}
