use once_map::unsync::OnceMap;

#[test]
fn a_second_insertion_with_the_same_hash_keeps_the_first_value() {
    let mut map: OnceMap<u32, u32> = OnceMap::new();
    assert_eq!(map.hashed_insert_with_cloned(5, 1, |_| 10), 10);
    assert_eq!(map.hashed_insert_with_cloned(5, 1, |_| 20), 10);
    assert_eq!(map.len(), 1);
    assert_eq!(map.hashed_get_cloned(5, &1), Some(10));
    assert_eq!(map.hashed_get_cloned(5, &2), None);
    assert_eq!(map.hashed_get_cloned(6, &1), None);
    assert!(map.hashed_contains_key(5, &1));
    assert!(!map.hashed_contains_key(5, &2));
}

#[test]
fn insert_cloned_with_a_known_hash() {
    let mut map: OnceMap<u32, u32> = OnceMap::new();
    assert_eq!(map.hashed_insert_cloned(5, 1, 10), 10);
    assert_eq!(map.hashed_insert_cloned(5, 1, 20), 10);
    assert_eq!(map.hashed_insert_cloned(6, 1, 30), 30);
    assert_eq!(map.len(), 2);
    assert_eq!(map.pair(0), (&1, &10));
    assert_eq!(map.pair(1), (&1, &30));
}

#[test]
fn try_insert_with_cloned_with_a_known_hash() {
    let mut map: OnceMap<u32, u32> = OnceMap::new();
    let failed: Result<u32, &str> = map.hashed_try_insert_with_cloned(5, 1, |_| Err("E"));
    assert_eq!(failed, Err("E"));
    assert_eq!(map.len(), 0);
    assert!(!map.hashed_contains_key(5, &1));
    let made: Result<u32, &str> = map.hashed_try_insert_with_cloned(5, 1, |_| Ok(2));
    assert_eq!(made, Ok(2));
    assert!(map.hashed_contains_key(5, &1));
    assert_eq!(map.len(), 1);
    assert_eq!(map.hashed_get_cloned(5, &1), Some(2));
}

#[test]
fn map_insert_family_with_a_known_hash() {
    let mut map: OnceMap<u32, u32> = OnceMap::new();
    assert_eq!(map.hashed_map_insert(5, 1, 10, |k, v| *k + *v), 11);
    assert_eq!(map.hashed_map_insert(5, 1, 20, |k, v| *k + *v), 11);
    assert_eq!(map.hashed_map_insert_with(6, 2, |k| *k * 2, |k, v| (*k, *v)), (2, 4));
    assert_eq!(map.hashed_map_insert_with(6, 2, |k| *k * 3, |k, v| (*k, *v)), (2, 4));
    let made: Result<u32, ()> = map.hashed_map_try_insert_with(7, 3, |_| Ok(30), |_, v| *v + 1);
    assert_eq!(made, Ok(31));
    let failed: Result<u32, ()> = map.hashed_map_try_insert_with(8, 4, |_| Err(()), |_, v| *v);
    assert_eq!(failed, Err(()));
    assert_eq!(map.hashed_map_get(7, &3, |k, v| *k + *v), Some(33));
    assert_eq!(map.hashed_map_get(8, &4, |k, v| *k + *v), None);
    assert_eq!(map.len(), 3);
}

#[test]
fn get_or_insert_with_a_known_hash() {
    let mut map: OnceMap<u32, u32> = OnceMap::new();
    assert_eq!(map.hashed_insert_cloned(5, 1, 1), 1);
    let found = map.hashed_get_or_insert_with(
        5,
        1,
        40,
        |_, _| panic!("the factory ran for a key that is stored"),
        |data, _, v| data + *v,
    );
    assert_eq!(found, 41);
    assert_eq!(map.hashed_get_cloned(5, &1), Some(1));
    let made = map.hashed_get_or_insert_with(6, 2, 40, |data, k| (data + *k, 0), |_, _, v| *v);
    assert_eq!(made, 0);
    assert_eq!(map.hashed_get_cloned(6, &2), Some(42));
}

#[test]
fn references_with_a_known_hash() {
    let mut map: OnceMap<u32, Box<u32>> = OnceMap::new();
    assert_eq!(*map.hashed_insert_with(5, 1, |_| Box::new(10)), 10);
    assert_eq!(*map.hashed_insert_with(5, 1, |_| Box::new(20)), 10);
    let failed: Result<&u32, &str> = map.hashed_try_insert_with(6, 2, |_| Err("E"));
    assert_eq!(failed, Err("E"));
    assert_eq!(map.hashed_get(6, &2), None);
    let made: Result<&u32, &str> = map.hashed_try_insert_with(6, 2, |_| Ok(Box::new(2)));
    assert_eq!(made, Ok(&2));
    assert_eq!(map.hashed_get(6, &2), Some(&2));
    assert_eq!(map.hashed_get(5, &1), Some(&10));
    assert_eq!(map.len(), 2);
}

#[test]
fn remove_with_a_known_hash_hands_the_value_back() {
    let mut map: OnceMap<u32, u32> = OnceMap::new();
    map.hashed_insert_cloned(5, 1, 10);
    map.hashed_insert_cloned(6, 2, 20);
    assert_eq!(map.hashed_remove(6, &1), None);
    assert_eq!(map.hashed_remove(5, &1), Some(10));
    assert_eq!(map.hashed_remove(5, &1), None);
    assert_eq!(map.len(), 1);
    assert_eq!(map.hashed_get_cloned(6, &2), Some(20));
}

#[test]
fn a_request_by_a_borrowed_query_builds_the_key_only_when_it_stores() {
    let mut map: OnceMap<String, i32> = OnceMap::new();
    let made: Result<i32, &str> =
        map.get_or_try_insert_ref("a", 1, |data, q| Ok((data, q.len() as i32)), |_, _, v| *v);
    assert_eq!(made, Ok(1));
    assert_eq!(map.pair(0), (&String::from("a"), &1));
    let found: Result<i32, &str> = map.get_or_try_insert_ref(
        "a",
        40,
        |_, _| panic!("the factory ran for a key that is stored"),
        |data, k, v| data + *v + k.len() as i32,
    );
    assert_eq!(found, Ok(42));
    assert_eq!(map.len(), 1);
    assert_eq!(map.get_cloned("a"), Some(1));
}

#[test]
fn a_failed_request_by_a_borrowed_query_stores_nothing() {
    let mut map: OnceMap<String, i32> = OnceMap::new();
    let failed: Result<(), &str> = map.get_or_try_insert_ref("a", (), |_, _| Err("E"), |_, _, _| ());
    assert_eq!(failed, Err("E"));
    assert!(!map.contains_key("a"));
    assert_eq!(map.len(), 0);
    let made: Result<(), &str> =
        map.get_or_try_insert_ref("a", (), |_, _| Ok((2, ())), |_, _, _| ());
    assert_eq!(made, Ok(()));
    assert!(map.contains_key("a"));
    assert_eq!(map.get_cloned("a"), Some(2));
    assert_eq!(map.len(), 1);
}

#[test]
fn a_request_by_a_borrowed_query_with_a_known_hash() {
    let mut map: OnceMap<Vec<u8>, u32> = OnceMap::new();
    let query: &[u8] = &[1, 2];
    let made: Result<u32, ()> =
        map.hashed_get_or_try_insert_ref(9, query, (), |_, q| Ok((q.len() as u32, 7)), |_, _, v| *v);
    assert_eq!(made, Ok(7));
    assert_eq!(map.pair(0), (&vec![1u8, 2], &2));
    assert_eq!(map.get_raw_entry(9, query), Some((&vec![1u8, 2], &2)));
    let found: Result<u32, ()> =
        map.hashed_get_or_try_insert_ref(9, query, (), |_, _| Err(()), |_, _, v| *v);
    assert_eq!(found, Ok(2));
    assert_eq!(map.len(), 1);
}

#[test]
fn the_plain_functions_use_the_hash_of_the_key() {
    let mut map: OnceMap<u32, u32> = OnceMap::new();
    map.insert_cloned(1, 10);
    let hash = map.hash_key(&1u32);
    assert_eq!(map.hashed_get_cloned(hash, &1), Some(10));
    assert!(map.hashed_contains_key(hash, &1));
    assert_eq!(map.hashed_insert_cloned(hash, 1, 20), 10);
    assert_eq!(map.len(), 1);
    assert!(map.publish(hash, 1, 30).is_err());
    assert_eq!(map.hashed_remove(hash, &1), Some(10));
    assert!(!map.contains_key(&1));
}
