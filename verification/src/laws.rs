//! What holds of every sequence of requests.
//!
//! The laws speak of requests that are made with the same hash. That a key
//! hashes to the same number each time is the business of its `Hash` impl and
//! of the hash builder; the map takes the number as it comes. Where a key
//! does hash to one number only, `hashes_to_one`, two requests for it are
//! made with the same hash, and the laws hold of the functions that hash.
use crate::equivalent::Equivalent;
use crate::hashing::hashes_to;
use crate::outcome::{entry_outcome, publish_outcome, query_outcome, ReentrantInit};
use crate::raw::{lookup_outcome, occupied, removal_outcome, slot_matches, swap_removed, Slot};
use core::hash::{BuildHasher, Hash};
use vstd::prelude::*;

verus! {

/// A request never touches the slots that were there: it leaves them all in
/// place, and adds at most one.
pub proof fn lemma_entry_keeps_slots<K: Eq + Hash, V, R, E>(
    before: Seq<Slot<K, V>>,
    after: Seq<Slot<K, V>>,
    hash: u64,
    key: K,
    hit: spec_fn(K, V, R) -> bool,
    miss: spec_fn(Result<(V, R), E>) -> bool,
    res: Result<R, E>,
)
    requires
        entry_outcome(before, after, hash, key, hit, miss, res),
    ensures
        before.len() <= after.len() <= before.len() + 1,
        forall|i: int| 0 <= i < before.len() ==> after[i] == before[i],
{
}

/// A request that finds its pair stores nothing, and its result is made
/// from the stored pair: the factory has no part in it.
pub proof fn lemma_hit_stores_nothing<K: Eq + Hash, V, R, E>(
    before: Seq<Slot<K, V>>,
    after: Seq<Slot<K, V>>,
    hash: u64,
    key: K,
    hit: spec_fn(K, V, R) -> bool,
    miss: spec_fn(Result<(V, R), E>) -> bool,
    res: Result<R, E>,
)
    requires
        entry_outcome(before, after, hash, key, hit, miss, res),
        occupied(before, hash, &key),
    ensures
        after == before,
        res is Ok,
        exists|i: int|
            0 <= i < before.len() && slot_matches(#[trigger] before[i], hash, &key) && hit(
                before[i].key,
                before[i].value,
                res->Ok_0,
            ),
{
}

/// The pair that a request stores is stored under the hash that the request
/// probed with, and under the key of the request.
pub proof fn lemma_stored_under_probed_hash<K: Eq + Hash, V, R, E>(
    before: Seq<Slot<K, V>>,
    after: Seq<Slot<K, V>>,
    hash: u64,
    key: K,
    hit: spec_fn(K, V, R) -> bool,
    miss: spec_fn(Result<(V, R), E>) -> bool,
    res: Result<R, E>,
)
    requires
        entry_outcome(before, after, hash, key, hit, miss, res),
        after != before,
    ensures
        !occupied(before, hash, &key),
        after.len() == before.len() + 1,
        after.last().hash == hash,
        after.last().key == key,
{
}

/// At most once: after a request for a key has ended well, a request with
/// the same hash for a key that denotes the same keys stores nothing. Its
/// result is made from a stored pair; where the first request stored the
/// pair, that pair is the only one the second can find.
pub proof fn lemma_at_most_once<K: Eq + Hash, V, R1, E1, R2, E2>(
    first: Seq<Slot<K, V>>,
    second: Seq<Slot<K, V>>,
    third: Seq<Slot<K, V>>,
    hash: u64,
    key: K,
    hit: spec_fn(K, V, R1) -> bool,
    miss: spec_fn(Result<(V, R1), E1>) -> bool,
    res: Result<R1, E1>,
    again: K,
    hit_again: spec_fn(K, V, R2) -> bool,
    miss_again: spec_fn(Result<(V, R2), E2>) -> bool,
    res_again: Result<R2, E2>,
)
    requires
        entry_outcome(first, second, hash, key, hit, miss, res),
        res is Ok,
        entry_outcome(second, third, hash, again, hit_again, miss_again, res_again),
        again.equivalent_spec(&key),
        forall|k: K| key.equivalent_spec(&k) ==> again.equivalent_spec(&k),
    ensures
        third == second,
        res_again is Ok,
        exists|i: int|
            0 <= i < second.len() && slot_matches(#[trigger] second[i], hash, &again) && hit_again(
                second[i].key,
                second[i].value,
                res_again->Ok_0,
            ),
        !occupied(first, hash, &again) ==> forall|i: int|
            0 <= i < second.len() && slot_matches(#[trigger] second[i], hash, &again) ==> i
                == first.len(),
{
    if occupied(first, hash, &key) {
        let i = choose|i: int|
            0 <= i < first.len() && slot_matches(#[trigger] first[i], hash, &key);
        assert(slot_matches(second[i], hash, &again));
    } else {
        let stored = second[first.len() as int];
        assert(slot_matches(stored, hash, &again));
        assert forall|i: int|
            0 <= i < second.len() && slot_matches(
                #[trigger] second[i],
                hash,
                &again,
            ) && !occupied(first, hash, &again) implies i == first.len() by {
            if i < first.len() {
                assert(slot_matches(first[i], hash, &again));
            }
        }
    }
}

/// What a request has stored or found is found by every lookup that follows
/// with the same hash, for a query that denotes the key and every key the
/// key denotes.
pub proof fn lemma_published_is_found<Q: Equivalent<K> + ?Sized, K: Eq + Hash, V, R, E, T>(
    before: Seq<Slot<K, V>>,
    after: Seq<Slot<K, V>>,
    hash: u64,
    key: K,
    hit: spec_fn(K, V, R) -> bool,
    miss: spec_fn(Result<(V, R), E>) -> bool,
    res: Result<R, E>,
    query: &Q,
    project: spec_fn(K, V, T) -> bool,
    found: Option<T>,
)
    requires
        entry_outcome(before, after, hash, key, hit, miss, res),
        res is Ok,
        lookup_outcome(after, hash, query, project, found),
        query.equivalent_spec(&key),
        forall|k: K| key.equivalent_spec(&k) ==> query.equivalent_spec(&k),
    ensures
        found is Some,
{
    if occupied(before, hash, &key) {
        let i = choose|i: int|
            0 <= i < before.len() && slot_matches(#[trigger] before[i], hash, &key);
        assert(slot_matches(after[i], hash, query));
    } else {
        assert(slot_matches(after[before.len() as int], hash, query));
    }
}

/// A request whose factory fails stores nothing: the key is as absent as
/// before, and the error is the factory's.
pub proof fn lemma_failed_factory_stores_nothing<K: Eq + Hash, V, R, E>(
    before: Seq<Slot<K, V>>,
    after: Seq<Slot<K, V>>,
    hash: u64,
    key: K,
    hit: spec_fn(K, V, R) -> bool,
    miss: spec_fn(Result<(V, R), E>) -> bool,
    res: Result<R, E>,
)
    requires
        entry_outcome(before, after, hash, key, hit, miss, res),
        res is Err,
    ensures
        after == before,
        !occupied(after, hash, &key),
        miss(Err(res->Err_0)),
{
}

/// After a request whose factory failed, a request with the same hash for
/// the same key whose factory cannot fail ends well: the value it made is
/// stored, and the key is found from then on.
pub proof fn lemma_retry_after_failure<K: Eq + Hash, V, R1, E1, R2, E2>(
    first: Seq<Slot<K, V>>,
    second: Seq<Slot<K, V>>,
    third: Seq<Slot<K, V>>,
    hash: u64,
    key: K,
    hit: spec_fn(K, V, R1) -> bool,
    miss: spec_fn(Result<(V, R1), E1>) -> bool,
    res: Result<R1, E1>,
    hit_again: spec_fn(K, V, R2) -> bool,
    miss_again: spec_fn(Result<(V, R2), E2>) -> bool,
    res_again: Result<R2, E2>,
)
    requires
        entry_outcome(first, second, hash, key, hit, miss, res),
        res is Err,
        entry_outcome(second, third, hash, key, hit_again, miss_again, res_again),
        forall|out: Result<(V, R2), E2>| #[trigger] miss_again(out) ==> out is Ok,
        key.equivalent_spec(&key),
    ensures
        res_again is Ok,
        exists|value: V| #[trigger]
            miss_again(Ok((value, res_again->Ok_0))) && third == first.push(
                Slot { hash, key, value },
            ),
        occupied(third, hash, &key),
{
    if res_again is Err {
        assert(miss_again(Err(res_again->Err_0)));
    }
    let value = choose|value: V| #[trigger]
        miss_again(Ok((value, res_again->Ok_0))) && third == second.push(
            Slot { hash, key, value },
        );
    assert(slot_matches(third[first.len() as int], hash, &key));
}

/// While a value is being made for a request, a request that stores a pair
/// which the first request does not look for leaves the place of the first
/// vacant: its value can still be stored.
pub proof fn lemma_other_request_keeps_vacancy<K: Eq + Hash, V, R, E>(
    before: Seq<Slot<K, V>>,
    after: Seq<Slot<K, V>>,
    hash: u64,
    key: K,
    other_hash: u64,
    other: K,
    hit: spec_fn(K, V, R) -> bool,
    miss: spec_fn(Result<(V, R), E>) -> bool,
    res: Result<R, E>,
)
    requires
        !occupied(before, hash, &key),
        entry_outcome(before, after, other_hash, other, hit, miss, res),
        !(other_hash == hash && key.equivalent_spec(&other)),
    ensures
        !occupied(after, hash, &key),
{
    if occupied(after, hash, &key) {
        let i = choose|i: int| 0 <= i < after.len() && slot_matches(#[trigger] after[i], hash, &key);
        if i < before.len() {
            assert(slot_matches(before[i], hash, &key));
        }
    }
}

/// While a value is being made for a request, a request with the same hash
/// for the same key that ends well takes the place: the first request finds
/// it occupied when it comes to store its value.
pub proof fn lemma_same_request_takes_place<K: Eq + Hash, V, R, E>(
    before: Seq<Slot<K, V>>,
    after: Seq<Slot<K, V>>,
    hash: u64,
    key: K,
    hit: spec_fn(K, V, R) -> bool,
    miss: spec_fn(Result<(V, R), E>) -> bool,
    res: Result<R, E>,
)
    requires
        entry_outcome(before, after, hash, key, hit, miss, res),
        res is Ok,
        key.equivalent_spec(&key),
    ensures
        occupied(after, hash, &key),
{
    if !occupied(before, hash, &key) {
        assert(slot_matches(after[before.len() as int], hash, &key));
    }
}

/// Of two publications with the same hash for keys that denote each other,
/// the second is refused and changes nothing: no value is stored twice.
pub proof fn lemma_second_publication_is_refused<K: Eq + Hash, V>(
    first: Seq<Slot<K, V>>,
    second: Seq<Slot<K, V>>,
    third: Seq<Slot<K, V>>,
    hash: u64,
    key: K,
    value: V,
    res: Result<(), ReentrantInit<K, V>>,
    again: K,
    value_again: V,
    res_again: Result<(), ReentrantInit<K, V>>,
)
    requires
        publish_outcome(first, second, hash, key, value, res),
        res is Ok,
        publish_outcome(second, third, hash, again, value_again, res_again),
        again.equivalent_spec(&key),
    ensures
        res_again is Err,
        third == second,
        res_again->Err_0.value == value_again,
{
    assert(slot_matches(second[first.len() as int], hash, &again));
}

/// A publication that follows a request with the same hash for the same
/// key which ended well is refused and changes nothing.
pub proof fn lemma_publication_after_request_is_refused<K: Eq + Hash, V, R, E>(
    first: Seq<Slot<K, V>>,
    second: Seq<Slot<K, V>>,
    third: Seq<Slot<K, V>>,
    hash: u64,
    key: K,
    hit: spec_fn(K, V, R) -> bool,
    miss: spec_fn(Result<(V, R), E>) -> bool,
    res: Result<R, E>,
    value: V,
    published: Result<(), ReentrantInit<K, V>>,
)
    requires
        entry_outcome(first, second, hash, key, hit, miss, res),
        res is Ok,
        key.equivalent_spec(&key),
        publish_outcome(second, third, hash, key, value, published),
    ensures
        published is Err,
        third == second,
{
    lemma_same_request_takes_place(first, second, hash, key, hit, miss, res);
}

/// No slot is one that a probe for another slot's key, with that slot's
/// hash, looks for: every stored key has one slot.
pub open spec fn distinct<K: Eq + Hash, V>(slots: Seq<Slot<K, V>>) -> bool {
    forall|i: int, j: int|
        #![trigger slots[i], slots[j]]
        0 <= i < slots.len() && 0 <= j < slots.len() && i != j ==> !slot_matches(
            slots[i],
            slots[j].hash,
            &slots[j].key,
        )
}

/// A map without slots has one slot for every stored key.
pub proof fn lemma_empty_is_distinct<K: Eq + Hash, V>()
    ensures
        distinct(Seq::<Slot<K, V>>::empty()),
{
}

/// A request keeps it that every stored key has one slot, for a key that
/// denotes every stored key which denotes it.
pub proof fn lemma_entry_keeps_distinct<K: Eq + Hash, V, R, E>(
    before: Seq<Slot<K, V>>,
    after: Seq<Slot<K, V>>,
    hash: u64,
    key: K,
    hit: spec_fn(K, V, R) -> bool,
    miss: spec_fn(Result<(V, R), E>) -> bool,
    res: Result<R, E>,
)
    requires
        distinct(before),
        entry_outcome(before, after, hash, key, hit, miss, res),
        forall|i: int|
            0 <= i < before.len() && (#[trigger] before[i]).key.equivalent_spec(&key)
                ==> key.equivalent_spec(&before[i].key),
    ensures
        distinct(after),
{
    if after != before {
        let last = before.len() as int;
        assert forall|i: int, j: int|
            #![trigger after[i], after[j]]
            0 <= i < after.len() && 0 <= j < after.len() && i != j implies !slot_matches(
            after[i],
            after[j].hash,
            &after[j].key,
        ) by {
            if i < last && j < last {
                assert(!slot_matches(before[i], before[j].hash, &before[j].key));
            } else if i < last {
                assert(!slot_matches(before[i], hash, &key));
            } else {
                assert(!slot_matches(before[j], hash, &key));
            }
        }
    }
}

/// A removal keeps it that every stored key has one slot.
pub proof fn lemma_removal_keeps_distinct<Q: Equivalent<K> + ?Sized, K: Eq + Hash, V>(
    before: Seq<Slot<K, V>>,
    after: Seq<Slot<K, V>>,
    hash: u64,
    key: &Q,
    res: Option<(K, V)>,
)
    requires
        distinct(before),
        removal_outcome(before, after, hash, key, res),
    ensures
        distinct(after),
{
    if let Some((k, v)) = res {
        let gap = choose|i: int|
            0 <= i < before.len() && slot_matches(#[trigger] before[i], hash, key) && before[i].key
                == k && before[i].value == v && after == swap_removed(before, i);
        let last = before.len() - 1;
        assert forall|i: int, j: int|
            #![trigger after[i], after[j]]
            0 <= i < after.len() && 0 <= j < after.len() && i != j implies !slot_matches(
            after[i],
            after[j].hash,
            &after[j].key,
        ) by {
            let from_i = if i == gap { last } else { i };
            let from_j = if j == gap { last } else { j };
            assert(after[i] == before[from_i]);
            assert(after[j] == before[from_j]);
            assert(!slot_matches(before[from_i], before[from_j].hash, &before[from_j].key));
        }
    }
}

/// Where every stored key has one slot, a probe finds at most one slot, for
/// a request under which two keys that it denotes denote each other.
pub proof fn lemma_distinct_single_match<Q: Equivalent<K> + ?Sized, K: Eq + Hash, V>(
    slots: Seq<Slot<K, V>>,
    hash: u64,
    key: &Q,
    i: int,
    j: int,
)
    requires
        distinct(slots),
        0 <= i < slots.len(),
        0 <= j < slots.len(),
        slot_matches(slots[i], hash, key),
        slot_matches(slots[j], hash, key),
        forall|a: K, b: K|
            #![trigger key.equivalent_spec(&a), key.equivalent_spec(&b)]
            key.equivalent_spec(&a) && key.equivalent_spec(&b) ==> a.equivalent_spec(&b),
    ensures
        i == j,
{
    if i != j {
        assert(slots[i].key.equivalent_spec(&slots[j].key));
        assert(slot_matches(slots[i], slots[j].hash, &slots[j].key));
    }
}

/// Where every stored key has one slot, a removal that took a pair out
/// leaves the key absent: a later request makes its value anew.
pub proof fn lemma_removed_is_vacant<Q: Equivalent<K> + ?Sized, K: Eq + Hash, V>(
    before: Seq<Slot<K, V>>,
    after: Seq<Slot<K, V>>,
    hash: u64,
    key: &Q,
    res: Option<(K, V)>,
)
    requires
        distinct(before),
        removal_outcome(before, after, hash, key, res),
        res is Some,
        forall|a: K, b: K|
            #![trigger key.equivalent_spec(&a), key.equivalent_spec(&b)]
            key.equivalent_spec(&a) && key.equivalent_spec(&b) ==> a.equivalent_spec(&b),
    ensures
        !occupied(after, hash, key),
{
    let (k, v) = res->Some_0;
    let gap = choose|i: int|
        0 <= i < before.len() && slot_matches(#[trigger] before[i], hash, key) && before[i].key == k
            && before[i].value == v && after == swap_removed(before, i);
    if occupied(after, hash, key) {
        let j = choose|j: int| 0 <= j < after.len() && slot_matches(#[trigger] after[j], hash, key);
        let from = if j == gap { before.len() - 1 } else { j };
        assert(after[j] == before[from]);
        lemma_distinct_single_match(before, hash, key, gap, from);
    }
}

/// With this hash builder the key hashes to one number only.
pub open spec fn hashes_to_one<S: BuildHasher, Q: Hash + ?Sized>(hash_builder: &S, key: &Q) -> bool {
    forall|hash: u64, other: u64|
        #![trigger hashes_to(hash_builder, key, hash), hashes_to(hash_builder, key, other)]
        hashes_to(hash_builder, key, hash) && hashes_to(hash_builder, key, other) ==> hash
            == other
}

/// At most once, for the functions that hash: where the key hashes to one
/// number only, a request for it that follows one which ended well stores
/// nothing, and its result is made from a stored pair.
pub proof fn lemma_at_most_once_by_key<S: BuildHasher, K: Eq + Hash, V, R1, E1, R2, E2>(
    hash_builder: &S,
    first: Seq<Slot<K, V>>,
    second: Seq<Slot<K, V>>,
    third: Seq<Slot<K, V>>,
    key: K,
    hash: u64,
    hit: spec_fn(K, V, R1) -> bool,
    miss: spec_fn(Result<(V, R1), E1>) -> bool,
    res: Result<R1, E1>,
    hash_again: u64,
    hit_again: spec_fn(K, V, R2) -> bool,
    miss_again: spec_fn(Result<(V, R2), E2>) -> bool,
    res_again: Result<R2, E2>,
)
    requires
        hashes_to_one(hash_builder, &key),
        key.equivalent_spec(&key),
        hashes_to(hash_builder, &key, hash),
        entry_outcome(first, second, hash, key, hit, miss, res),
        res is Ok,
        hashes_to(hash_builder, &key, hash_again),
        entry_outcome(second, third, hash_again, key, hit_again, miss_again, res_again),
    ensures
        hash_again == hash,
        third == second,
        res_again is Ok,
        exists|i: int|
            0 <= i < second.len() && slot_matches(#[trigger] second[i], hash, &key) && hit_again(
                second[i].key,
                second[i].value,
                res_again->Ok_0,
            ),
{
    lemma_at_most_once(
        first,
        second,
        third,
        hash,
        key,
        hit,
        miss,
        res,
        key,
        hit_again,
        miss_again,
        res_again,
    );
}

/// Where the key hashes to one number only, a lookup by the functions that
/// hash finds what a request for the key has stored or found.
pub proof fn lemma_published_is_found_by_key<S: BuildHasher, K: Eq + Hash, V, R, E, T>(
    hash_builder: &S,
    before: Seq<Slot<K, V>>,
    after: Seq<Slot<K, V>>,
    key: K,
    hash: u64,
    hit: spec_fn(K, V, R) -> bool,
    miss: spec_fn(Result<(V, R), E>) -> bool,
    res: Result<R, E>,
    hash_again: u64,
    project: spec_fn(K, V, T) -> bool,
    found: Option<T>,
)
    requires
        hashes_to_one(hash_builder, &key),
        key.equivalent_spec(&key),
        hashes_to(hash_builder, &key, hash),
        entry_outcome(before, after, hash, key, hit, miss, res),
        res is Ok,
        hashes_to(hash_builder, &key, hash_again),
        lookup_outcome(after, hash_again, &key, project, found),
    ensures
        found is Some,
{
    lemma_published_is_found(before, after, hash, key, hit, miss, res, &key, project, found);
}

/// At most once, for requests by a borrowed query: after a request that
/// ended well, a request with the same hash by the same query stores
/// nothing, and its result is made from a stored pair. Where the first
/// request stored the pair, that pair is the only one the second can find.
pub proof fn lemma_query_at_most_once<Q: Equivalent<K> + ?Sized, K: Eq + Hash, V, R1, E1, R2, E2>(
    first: Seq<Slot<K, V>>,
    second: Seq<Slot<K, V>>,
    third: Seq<Slot<K, V>>,
    hash: u64,
    key: &Q,
    hit: spec_fn(K, V, R1) -> bool,
    miss: spec_fn(Result<(V, R1), E1>) -> bool,
    res: Result<R1, E1>,
    hit_again: spec_fn(K, V, R2) -> bool,
    miss_again: spec_fn(Result<(V, R2), E2>) -> bool,
    res_again: Result<R2, E2>,
)
    requires
        query_outcome(first, second, hash, key, hit, miss, res),
        res is Ok,
        query_outcome(second, third, hash, key, hit_again, miss_again, res_again),
    ensures
        third == second,
        res_again is Ok,
        exists|i: int|
            0 <= i < second.len() && slot_matches(#[trigger] second[i], hash, key) && hit_again(
                second[i].key,
                second[i].value,
                res_again->Ok_0,
            ),
        !occupied(first, hash, key) ==> forall|i: int|
            0 <= i < second.len() && slot_matches(#[trigger] second[i], hash, key) ==> i
                == first.len(),
{
    if occupied(first, hash, key) {
        let i = choose|i: int| 0 <= i < first.len() && slot_matches(#[trigger] first[i], hash, key);
        assert(slot_matches(second[i], hash, key));
    } else {
        assert(slot_matches(second[first.len() as int], hash, key));
        assert forall|i: int|
            0 <= i < second.len() && slot_matches(#[trigger] second[i], hash, key) implies i
            == first.len() by {
            if i < first.len() {
                assert(slot_matches(first[i], hash, key));
            }
        }
    }
}

/// What a request by a borrowed query has stored or found is found by every
/// lookup that follows with the same hash and the same query.
pub proof fn lemma_query_published_is_found<Q: Equivalent<K> + ?Sized, K: Eq + Hash, V, R, E, T>(
    before: Seq<Slot<K, V>>,
    after: Seq<Slot<K, V>>,
    hash: u64,
    key: &Q,
    hit: spec_fn(K, V, R) -> bool,
    miss: spec_fn(Result<(V, R), E>) -> bool,
    res: Result<R, E>,
    project: spec_fn(K, V, T) -> bool,
    found: Option<T>,
)
    requires
        query_outcome(before, after, hash, key, hit, miss, res),
        res is Ok,
        lookup_outcome(after, hash, key, project, found),
    ensures
        found is Some,
{
    if occupied(before, hash, key) {
        let i = choose|i: int|
            0 <= i < before.len() && slot_matches(#[trigger] before[i], hash, key);
        assert(slot_matches(after[i], hash, key));
    } else {
        assert(slot_matches(after[before.len() as int], hash, key));
    }
}

/// A request by a borrowed query never touches the slots that were there,
/// and a request whose factory fails stores nothing.
pub proof fn lemma_query_keeps_slots<Q: Equivalent<K> + ?Sized, K: Eq + Hash, V, R, E>(
    before: Seq<Slot<K, V>>,
    after: Seq<Slot<K, V>>,
    hash: u64,
    key: &Q,
    hit: spec_fn(K, V, R) -> bool,
    miss: spec_fn(Result<(V, R), E>) -> bool,
    res: Result<R, E>,
)
    requires
        query_outcome(before, after, hash, key, hit, miss, res),
    ensures
        before.len() <= after.len() <= before.len() + 1,
        forall|i: int| 0 <= i < before.len() ==> after[i] == before[i],
        res is Err ==> after == before && !occupied(after, hash, key),
        after != before ==> after.last().hash == hash && key.equivalent_spec(&after.last().key),
{
}

} // verus!
