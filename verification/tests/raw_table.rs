use once_map::raw::{RawEntryMut, RawTable};

fn occupied_number(entry: RawEntryMut) -> Option<usize> {
    match entry {
        RawEntryMut::Occupied(number) => Some(number),
        RawEntryMut::Vacant => None,
    }
}

#[test]
fn a_new_table_is_empty() {
    let table: RawTable<u64, u64> = RawTable::new();
    assert_eq!(table.len(), 0);
    assert!(table.is_empty());
    assert!(table.get_raw_entry(0, &0u64).is_none());
}

#[test]
fn a_pair_is_found_under_the_hash_it_was_inserted_with() {
    let mut table: RawTable<u64, &str> = RawTable::new();
    table.insert_hashed_nocheck(11, 1, "one");
    table.insert_hashed_nocheck(22, 2, "two");
    assert_eq!(table.len(), 2);
    assert_eq!(table.get_raw_entry(11, &1u64), Some((&1, &"one")));
    assert_eq!(table.get_raw_entry(22, &2u64), Some((&2, &"two")));
}

#[test]
fn a_pair_is_not_found_under_another_hash() {
    let mut table: RawTable<u64, &str> = RawTable::new();
    table.insert_hashed_nocheck(11, 1, "one");
    assert!(table.get_raw_entry(12, &1u64).is_none());
    assert!(table.get_raw_entry(11, &2u64).is_none());
}

#[test]
fn keys_that_share_a_hash_are_told_apart() {
    let mut table: RawTable<u64, &str> = RawTable::new();
    table.insert_hashed_nocheck(5, 1, "one");
    table.insert_hashed_nocheck(5, 2, "two");
    table.insert_hashed_nocheck(5, 3, "three");
    assert_eq!(table.get_raw_entry(5, &2u64), Some((&2, &"two")));
    assert_eq!(table.get_raw_entry(5, &3u64), Some((&3, &"three")));
    assert_eq!(table.get_raw_entry(5, &1u64), Some((&1, &"one")));
    assert!(table.get_raw_entry(5, &4u64).is_none());
}

#[test]
fn a_probe_for_insertion_gives_the_slot_number() {
    let mut table: RawTable<u64, &str> = RawTable::new();
    assert_eq!(occupied_number(table.get_raw_entry_mut(11, &1u64)), None);
    table.insert_hashed_nocheck(11, 1, "one");
    table.insert_hashed_nocheck(22, 2, "two");
    assert_eq!(occupied_number(table.get_raw_entry_mut(11, &1u64)), Some(0));
    assert_eq!(occupied_number(table.get_raw_entry_mut(22, &2u64)), Some(1));
    assert_eq!(occupied_number(table.get_raw_entry_mut(22, &1u64)), None);
    assert_eq!(table.slot(1).hash, 22);
    assert_eq!(table.slot(1).key, 2);
    assert_eq!(table.slot(1).value, "two");
}

#[test]
fn a_string_slice_finds_the_owned_key() {
    let mut table: RawTable<String, u32> = RawTable::new();
    table.insert_hashed_nocheck(9, String::from("a"), 1);
    assert_eq!(table.get_raw_entry(9, "a"), Some((&String::from("a"), &1)));
    assert!(table.get_raw_entry(9, "b").is_none());
}

#[test]
fn removal_moves_the_last_slot_into_the_gap() {
    let mut table: RawTable<u64, &str> = RawTable::new();
    table.insert_hashed_nocheck(11, 1, "one");
    table.insert_hashed_nocheck(22, 2, "two");
    table.insert_hashed_nocheck(33, 3, "three");
    assert_eq!(table.remove_raw_entry(11, &1u64), Some((1, "one")));
    assert_eq!(table.len(), 2);
    assert_eq!(table.slot(0).key, 3);
    assert_eq!(table.slot(1).key, 2);
    assert!(table.get_raw_entry(11, &1u64).is_none());
    assert_eq!(table.get_raw_entry(22, &2u64), Some((&2, &"two")));
    assert_eq!(table.get_raw_entry(33, &3u64), Some((&3, &"three")));
    assert_eq!(occupied_number(table.get_raw_entry_mut(33, &3u64)), Some(0));
}

#[test]
fn removal_of_the_last_slot_moves_nothing() {
    let mut table: RawTable<u64, &str> = RawTable::new();
    table.insert_hashed_nocheck(11, 1, "one");
    table.insert_hashed_nocheck(22, 2, "two");
    assert_eq!(table.remove_raw_entry(22, &2u64), Some((2, "two")));
    assert_eq!(table.len(), 1);
    assert_eq!(table.get_raw_entry(11, &1u64), Some((&1, &"one")));
    assert_eq!(table.remove_raw_entry(11, &1u64), Some((1, "one")));
    assert!(table.is_empty());
}

#[test]
fn removal_of_an_absent_key_changes_nothing() {
    let mut table: RawTable<u64, &str> = RawTable::new();
    table.insert_hashed_nocheck(11, 1, "one");
    assert_eq!(table.remove_raw_entry(11, &2u64), None);
    assert_eq!(table.remove_raw_entry(12, &1u64), None);
    assert_eq!(table.len(), 1);
    assert_eq!(table.get_raw_entry(11, &1u64), Some((&1, &"one")));
}

#[test]
fn removal_among_keys_that_share_a_hash() {
    let mut table: RawTable<u64, u64> = RawTable::new();
    for key in 0..10u64 {
        table.insert_hashed_nocheck(7, key, key * 10);
    }
    assert_eq!(table.remove_raw_entry(7, &3u64), Some((3, 30)));
    assert_eq!(table.remove_raw_entry(7, &0u64), Some((0, 0)));
    assert_eq!(table.len(), 8);
    for key in 0..10u64 {
        let found = table.get_raw_entry(7, &key);
        if key == 3 || key == 0 {
            assert!(found.is_none());
        } else {
            assert_eq!(found, Some((&key, &(key * 10))));
        }
    }
}

#[test]
fn clear_empties_the_table() {
    let mut table: RawTable<u64, &str> = RawTable::new();
    table.insert_hashed_nocheck(11, 1, "one");
    table.insert_hashed_nocheck(22, 2, "two");
    table.clear();
    assert_eq!(table.len(), 0);
    assert!(table.get_raw_entry(11, &1u64).is_none());
    assert!(table.get_raw_entry(22, &2u64).is_none());
    table.insert_hashed_nocheck(11, 1, "uno");
    assert_eq!(table.get_raw_entry(11, &1u64), Some((&1, &"uno")));
    assert_eq!(occupied_number(table.get_raw_entry_mut(11, &1u64)), Some(0));
}

#[test]
fn many_pairs_survive_the_growth_of_the_table() {
    let mut table: RawTable<u64, u64> = RawTable::new();
    for key in 0..5000u64 {
        table.insert_hashed_nocheck(key.wrapping_mul(0x9E37_79B9_7F4A_7C15), key, key + 1);
    }
    assert_eq!(table.len(), 5000);
    for key in 0..5000u64 {
        let hash = key.wrapping_mul(0x9E37_79B9_7F4A_7C15);
        assert_eq!(table.get_raw_entry(hash, &key), Some((&key, &(key + 1))));
    }
    for key in (0..5000u64).step_by(2) {
        let hash = key.wrapping_mul(0x9E37_79B9_7F4A_7C15);
        assert_eq!(table.remove_raw_entry(hash, &key), Some((key, key + 1)));
    }
    assert_eq!(table.len(), 2500);
    for key in 0..5000u64 {
        let hash = key.wrapping_mul(0x9E37_79B9_7F4A_7C15);
        let found = table.get_raw_entry(hash, &key);
        if key % 2 == 0 {
            assert!(found.is_none());
        } else {
            assert_eq!(found, Some((&key, &(key + 1))));
        }
    }
}

#[test]
fn nocheck_insertion_can_store_a_key_twice() {
    let mut table: RawTable<u64, &str> = RawTable::new();
    table.insert_hashed_nocheck(11, 1, "one");
    table.insert_hashed_nocheck(11, 1, "uno");
    assert_eq!(table.len(), 2);
    assert!(table.get_raw_entry(11, &1u64).is_some());
    assert!(table.remove_raw_entry(11, &1u64).is_some());
    assert!(table.remove_raw_entry(11, &1u64).is_some());
    assert!(table.remove_raw_entry(11, &1u64).is_none());
}
