use once_map::outcome::ReentrantInit;
use once_map::unsync::OnceMap;
use std::collections::hash_map::RandomState;

fn must_not_run(_: &String) -> Box<i32> {
    panic!("the factory ran for a key that is stored")
}

#[test]
fn a_stored_value_comes_back_without_the_factory() {
    let mut map: OnceMap<String, Box<i32>> = OnceMap::new();
    assert_eq!(*map.insert_with(String::from("a"), |_| Box::new(1)), 1);
    assert_eq!(*map.insert_with(String::from("a"), must_not_run), 1);
    assert_eq!(map.len(), 1);
}

#[test]
fn a_failed_factory_stores_nothing_and_a_later_one_succeeds() {
    let mut map: OnceMap<String, Box<i32>> = OnceMap::new();
    let failed: Result<&i32, &str> = map.try_insert_with(String::from("a"), |_| Err("no"));
    assert_eq!(failed, Err("no"));
    assert!(!map.contains_key("a"));
    assert!(map.is_empty());
    let made: Result<&i32, &str> = map.try_insert_with(String::from("a"), |_| Ok(Box::new(2)));
    assert_eq!(made, Ok(&2));
    assert_eq!(map.get("a"), Some(&2));
    assert!(map.contains_key("a"));
}

#[test]
fn the_factory_runs_at_most_once_per_key() {
    let mut map: OnceMap<u64, u64> = OnceMap::new();
    let mut runs = 0;
    for round in 0..5u64 {
        let value = map.insert_with_cloned(7, |k| {
            runs += 1;
            *k * 100 + round
        });
        assert_eq!(value, 700);
    }
    assert_eq!(runs, 1);
    assert_eq!(map.len(), 1);
    assert_eq!(map.get_cloned(&7), Some(700));
}

#[test]
fn the_factory_sees_the_key_of_the_request() {
    let mut map: OnceMap<String, String> = OnceMap::new();
    let made = map.insert_with_cloned(String::from("key"), |k| format!("{k}-value"));
    assert_eq!(made, "key-value");
    assert_eq!(map.get("key"), Some("key-value"));
}

#[test]
fn lookups_change_nothing() {
    let mut map: OnceMap<String, Box<i32>> = OnceMap::new();
    map.insert_with(String::from("a"), |_| Box::new(1));
    for _ in 0..3 {
        assert_eq!(map.get("a"), Some(&1));
        assert_eq!(map.get("b"), None);
        assert!(map.contains_key("a"));
        assert!(!map.contains_key("b"));
        assert_eq!(map.get_cloned("a"), Some(Box::new(1)));
        assert_eq!(map.get_cloned("b"), None);
        assert_eq!(map.map_get("a", |k, v| format!("{k}={v}")), Some(String::from("a=1")));
        assert_eq!(map.map_get("b", |k, v| format!("{k}={v}")), None);
        assert_eq!(map.len(), 1);
    }
}

#[test]
fn a_new_map_is_empty() {
    let map: OnceMap<u64, u64> = OnceMap::new();
    assert_eq!(map.len(), 0);
    assert!(map.is_empty());
    let other: OnceMap<u64, u64> = OnceMap::default();
    assert!(other.is_empty());
    let seeded: OnceMap<u64, u64, RandomState> = OnceMap::with_hasher(RandomState::new());
    assert!(seeded.is_empty());
    assert!(!seeded.contains_key(&1));
}

#[test]
fn a_map_with_another_hash_builder_works_alike() {
    let mut map: OnceMap<String, u32, RandomState> = OnceMap::with_hasher(RandomState::new());
    assert_eq!(map.insert_cloned(String::from("a"), 1), 1);
    assert_eq!(map.insert_cloned(String::from("a"), 2), 1);
    assert_eq!(map.insert_cloned(String::from("b"), 3), 3);
    assert_eq!(map.get_cloned("a"), Some(1));
    assert_eq!(map.get_cloned("b"), Some(3));
    assert_eq!(map.len(), 2);
    let hash = map.hash_key("a");
    assert_eq!(hash, once_map::hash_one(map.hasher(), "a"));
    assert_eq!(map.get_raw_entry(hash, "a"), Some((&String::from("a"), &1)));
}

#[test]
fn insert_cloned_keeps_the_first_value() {
    let mut map: OnceMap<u64, String> = OnceMap::new();
    assert_eq!(map.insert_cloned(1, String::from("first")), "first");
    assert_eq!(map.insert_cloned(1, String::from("second")), "first");
    assert_eq!(map.get_cloned(&1), Some(String::from("first")));
}

#[test]
fn try_insert_with_cloned_hands_the_error_on() {
    let mut map: OnceMap<u64, u64> = OnceMap::new();
    let failed: Result<u64, String> = map.try_insert_with_cloned(1, |k| Err(format!("no {k}")));
    assert_eq!(failed, Err(String::from("no 1")));
    assert!(!map.contains_key(&1));
    let made: Result<u64, String> = map.try_insert_with_cloned(1, |k| Ok(*k + 1));
    assert_eq!(made, Ok(2));
    let again: Result<u64, String> = map.try_insert_with_cloned(1, |_| Err(String::from("late")));
    assert_eq!(again, Ok(2));
    assert_eq!(map.len(), 1);
}

#[test]
fn map_insert_makes_the_result_from_the_stored_pair() {
    let mut map: OnceMap<u64, u64> = OnceMap::new();
    assert_eq!(map.map_insert(1, 10, |k, v| *k + *v), 11);
    assert_eq!(map.map_insert(1, 20, |k, v| *k + *v), 11);
    assert_eq!(map.map_insert_with(2, |k| *k * 2, |k, v| (*k, *v)), (2, 4));
    assert_eq!(map.map_insert_with(2, |k| *k * 3, |k, v| (*k, *v)), (2, 4));
    let made: Result<u64, ()> = map.map_try_insert_with(3, |_| Ok(30), |_, v| *v + 1);
    assert_eq!(made, Ok(31));
    let failed: Result<u64, ()> = map.map_try_insert_with(4, |_| Err(()), |_, v| *v + 1);
    assert_eq!(failed, Err(()));
    let found: Result<u64, ()> = map.map_try_insert_with(3, |_| Err(()), |_, v| *v + 1);
    assert_eq!(found, Ok(31));
    assert_eq!(map.len(), 3);
}

#[test]
fn get_or_insert_with_hands_the_data_to_one_of_the_two() {
    let mut map: OnceMap<u64, u64> = OnceMap::new();
    let first = map.get_or_insert_with(7, 10u64, |data, k| (data + *k, "made"), |_, _, _| "found");
    assert_eq!(first, "made");
    assert_eq!(map.get_cloned(&7), Some(17));
    let second = map.get_or_insert_with(7, 5u64, |_, _| (0, 0), |data, k, v| data + *k + *v);
    assert_eq!(second, 29);
    assert_eq!(map.len(), 1);
}

#[test]
fn get_or_try_insert_with_stores_nothing_on_failure() {
    let mut map: OnceMap<u64, u64> = OnceMap::new();
    let failed: Result<u8, &str> =
        map.get_or_try_insert_with(7, (), |_, _| Err("broken"), |_, _, _| 0);
    assert_eq!(failed, Err("broken"));
    assert!(map.is_empty());
    let made: Result<u8, &str> =
        map.get_or_try_insert_with(7, (), |_, k| Ok((*k + 1, 1)), |_, _, _| 0);
    assert_eq!(made, Ok(1));
    let found: Result<u8, &str> =
        map.get_or_try_insert_with(7, (), |_, _| Err("broken"), |_, _, v| *v as u8);
    assert_eq!(found, Ok(8));
}

#[test]
fn a_request_with_a_known_hash_probes_and_stores_under_it() {
    let mut map: OnceMap<u64, u64> = OnceMap::new();
    let made: Result<u8, ()> =
        map.hashed_get_or_try_insert_with(99, 7, (), |_, _| Ok((70, 1)), |_, _, _| 2);
    assert_eq!(made, Ok(1));
    assert_eq!(map.get_raw_entry(99, &7), Some((&7, &70)));
    assert_eq!(map.get_raw_entry(98, &7), None);
    let found: Result<u8, ()> =
        map.hashed_get_or_try_insert_with(99, 7, (), |_, _| Ok((71, 1)), |_, _, _| 2);
    assert_eq!(found, Ok(2));
    let other: Result<u8, ()> =
        map.hashed_get_or_try_insert_with(98, 7, (), |_, _| Ok((72, 1)), |_, _, _| 2);
    assert_eq!(other, Ok(1));
    assert_eq!(map.len(), 2);
    assert_eq!(map.pair(0), (&7, &70));
    assert_eq!(map.pair(1), (&7, &72));
}

#[test]
fn a_value_made_meanwhile_for_another_key_does_not_block_publishing() {
    let mut map: OnceMap<String, u32> = OnceMap::new();
    let hash = map.hash_key("a");
    assert!(map.get_raw_entry(hash, "a").is_none());
    assert!(!map.contains_key("b"));
    map.insert_cloned(String::from("b"), 2);
    assert!(map.publish(hash, String::from("a"), 1).is_ok());
    assert_eq!(map.get_cloned("a"), Some(1));
    assert_eq!(map.get_cloned("b"), Some(2));
}

#[test]
fn a_value_made_meanwhile_for_the_same_key_is_a_fault() {
    let mut map: OnceMap<String, u32> = OnceMap::new();
    let hash = map.hash_key("a");
    assert!(map.get_raw_entry(hash, "a").is_none());
    map.insert_cloned(String::from("a"), 2);
    match map.publish(hash, String::from("a"), 1) {
        Ok(()) => panic!("the second value was stored"),
        Err(ReentrantInit { key, value }) => {
            assert_eq!(key, "a");
            assert_eq!(value, 1);
        }
    }
    assert_eq!(map.get_cloned("a"), Some(2));
    assert_eq!(map.len(), 1);
}

#[test]
fn remove_takes_the_pair_out() {
    let mut map: OnceMap<String, u32> = OnceMap::new();
    map.insert_cloned(String::from("a"), 1);
    map.insert_cloned(String::from("b"), 2);
    map.insert_cloned(String::from("c"), 3);
    assert_eq!(map.remove("a"), Some(1));
    assert_eq!(map.remove("a"), None);
    assert_eq!(map.remove_entry("b"), Some((String::from("b"), 2)));
    assert_eq!(map.remove_entry("b"), None);
    assert_eq!(map.len(), 1);
    assert_eq!(map.get_cloned("c"), Some(3));
    assert_eq!(map.insert_cloned(String::from("a"), 10), 10);
    assert_eq!(map.get_cloned("a"), Some(10));
}

#[test]
fn remove_with_a_known_hash() {
    let mut map: OnceMap<u64, u64> = OnceMap::new();
    assert!(map.publish(5, 1, 10).is_ok());
    assert!(map.publish(5, 2, 20).is_ok());
    assert_eq!(map.remove_raw_entry(6, &1), None);
    assert_eq!(map.remove_raw_entry(5, &1), Some((1, 10)));
    assert_eq!(map.pair(0), (&2, &20));
    assert_eq!(map.len(), 1);
}

#[test]
fn clear_removes_every_pair() {
    let mut map: OnceMap<u64, u64> = OnceMap::new();
    for key in 0..100 {
        map.insert_cloned(key, key);
    }
    assert_eq!(map.len(), 100);
    map.clear();
    assert!(map.is_empty());
    assert!(!map.contains_key(&5));
    assert_eq!(map.insert_cloned(5, 50), 50);
    assert_eq!(map.len(), 1);
}

#[test]
fn many_keys_are_each_stored_once() {
    let mut map: OnceMap<u64, Box<u64>> = OnceMap::new();
    for round in 0..3u64 {
        for key in 0..2000u64 {
            assert_eq!(*map.insert_with(key, |k| Box::new(*k + round)), key);
        }
    }
    assert_eq!(map.len(), 2000);
    for key in 0..2000u64 {
        assert_eq!(map.get(&key), Some(&key));
    }
    assert_eq!(map.get(&2000), None);
}

#[test]
fn the_pairs_can_be_walked_by_number() {
    let mut map: OnceMap<u64, u64> = OnceMap::new();
    map.insert_cloned(1, 10);
    map.insert_cloned(2, 20);
    let mut seen = vec![];
    for number in 0..map.len() {
        let (k, v) = map.pair(number);
        seen.push((*k, *v));
    }
    assert_eq!(seen, vec![(1, 10), (2, 20)]);
}

#[test]
fn a_slice_finds_the_vector_key() {
    let mut map: OnceMap<Vec<u8>, u32> = OnceMap::new();
    map.insert_cloned(vec![1, 2, 3], 7);
    let query: &[u8] = &[1, 2, 3];
    assert_eq!(map.get_cloned(query), Some(7));
    assert!(map.contains_key(query));
    let other: &[u8] = &[1, 2];
    assert_eq!(map.get_cloned(other), None);
    assert_eq!(map.remove(query), Some(7));
    assert!(map.is_empty());
}

#[test]
fn a_factory_may_use_the_map_for_other_keys() {
    let mut map: OnceMap<String, u32> = OnceMap::new();
    map.insert_cloned(String::from("b"), 2);
    let res: Result<Result<u32, ()>, ReentrantInit<String, u32>> = map.get_or_try_insert_reentrant(
        String::from("a"),
        10,
        |map, data, key| {
            assert_eq!(key, "a");
            assert!(map.contains_key("b"));
            assert!(!map.contains_key("a"));
            let b = map.get_cloned("b").unwrap();
            let c = map.insert_cloned(String::from("c"), 3);
            Ok((data + b + c, b + c))
        },
        |_, _, v| *v,
    );
    assert_eq!(res.unwrap(), Ok(5));
    assert_eq!(map.len(), 3);
    assert_eq!(map.get_cloned("a"), Some(15));
    assert_eq!(map.get_cloned("b"), Some(2));
    assert_eq!(map.get_cloned("c"), Some(3));
}

#[test]
fn a_factory_that_stores_the_key_it_makes_the_value_for_is_a_fault() {
    let mut map: OnceMap<String, u32> = OnceMap::new();
    let res: Result<Result<(), ()>, ReentrantInit<String, u32>> = map.get_or_try_insert_reentrant(
        String::from("a"),
        (),
        |map, _, key| {
            assert_eq!(map.insert_cloned(key.clone(), 1), 1);
            Ok((2, ()))
        },
        |_, _, _| (),
    );
    match res {
        Ok(_) => panic!("the second value was stored"),
        Err(ReentrantInit { key, value }) => {
            assert_eq!(key, "a");
            assert_eq!(value, 2);
        }
    }
    assert_eq!(map.len(), 1);
    assert_eq!(map.get_cloned("a"), Some(1));
}

#[test]
fn a_request_nested_in_the_factory_of_the_same_request_is_a_fault() {
    let mut map: OnceMap<u64, u64> = OnceMap::new();
    let outer: Result<Result<u64, ()>, ReentrantInit<u64, u64>> = map.get_or_try_insert_reentrant(
        7,
        (),
        |map, _, key| {
            let inner: Result<Result<u64, ()>, ReentrantInit<u64, u64>> = map
                .get_or_try_insert_reentrant(*key, (), |_, _, _| Ok((70, 1)), |_, _, v| *v);
            assert_eq!(inner.unwrap(), Ok(1));
            Ok((71, 2))
        },
        |_, _, v| *v,
    );
    let fault = outer.unwrap_err();
    assert_eq!(fault.key, 7);
    assert_eq!(fault.value, 71);
    assert_eq!(map.get_cloned(&7), Some(70));
    assert_eq!(map.len(), 1);
}

#[test]
fn a_reentrant_request_finds_a_stored_pair_without_the_factory() {
    let mut map: OnceMap<u64, u64> = OnceMap::new();
    map.insert_cloned(7, 70);
    let res: Result<Result<u64, ()>, ReentrantInit<u64, u64>> = map.get_or_try_insert_reentrant(
        7,
        1,
        |_, _, _| panic!("the factory ran for a key that is stored"),
        |data, k, v| data + *k + *v,
    );
    assert_eq!(res.unwrap(), Ok(78));
    assert_eq!(map.len(), 1);
}

#[test]
fn a_reentrant_request_hands_the_error_of_the_factory_on() {
    let mut map: OnceMap<u64, u64> = OnceMap::new();
    let res: Result<Result<u64, &str>, ReentrantInit<u64, u64>> = map.get_or_try_insert_reentrant(
        7,
        (),
        |map, _, _| {
            map.insert_cloned(8, 80);
            Err("no")
        },
        |_, _, v| *v,
    );
    assert_eq!(res.unwrap(), Err("no"));
    assert!(!map.contains_key(&7));
    assert_eq!(map.get_cloned(&8), Some(80));
    let made: Result<Result<u64, &str>, ReentrantInit<u64, u64>> = map
        .hashed_get_or_try_insert_reentrant(3, 7, (), |_, _, _| Ok((70, 1)), |_, _, v| *v);
    assert_eq!(made.unwrap(), Ok(1));
    assert_eq!(map.get_raw_entry(3, &7), Some((&7, &70)));
}

#[test]
fn a_map_with_borrowed_string_keys() {
    let mut map: OnceMap<&'static str, i32> = OnceMap::new();
    assert_eq!(map.insert_cloned("a", 1), 1);
    assert_eq!(map.insert_with_cloned("a", |_| panic!("the factory ran for a stored key")), 1);
    assert_eq!(map.len(), 1);
    let found = map.get_or_insert_with(
        "a",
        40,
        |_, _| panic!("the factory ran for a stored key"),
        |d, _, v| d + *v,
    );
    assert_eq!(found, 41);
    assert_eq!(map.get_cloned("a"), Some(1));
    assert!(map.contains_key("a"));
    assert!(!map.contains_key("b"));
    let failed: Result<i32, &str> = map.try_insert_with_cloned("b", |_| Err("E"));
    assert_eq!(failed, Err("E"));
    assert!(!map.contains_key("b"));
    let made: Result<i32, &str> = map.try_insert_with_cloned("b", |_| Ok(2));
    assert_eq!(made, Ok(2));
    assert!(map.contains_key("b"));
    assert_eq!(map.len(), 2);
}
