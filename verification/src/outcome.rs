//! How a request ends, told over the slots before and after it.
//!
//! The map's functions differ in how the value is made and in what is made
//! of the pair for the caller. Their contracts share one statement of how a
//! request ends, `entry_outcome`, and name the two parts that differ. A
//! request by a borrowed query ends as `query_outcome` tells: the same, but
//! for the key of a new slot, which is built from the query.
use crate::equivalent::{Equivalent, ToOwnedEquivalent};
use crate::raw::{occupied, slot_matches, Slot};
use core::convert::Infallible;
use core::hash::Hash;
use core::ops::Deref;
use vstd::pervasive::cloned;
use vstd::prelude::*;

verus! {

/// How a request with `hash` for `key` ends, told over the slots before and
/// after it.
///
/// Where a slot is the one looked for, nothing changes and the result is one
/// that `hit` accepts for a stored pair. Where the place is vacant, the
/// factory's answer is one that `miss` accepts: its value is stored under
/// `hash` in a new last slot, or its error is handed on and nothing changes.
pub open spec fn entry_outcome<K: Eq + Hash, V, R, E>(
    before: Seq<Slot<K, V>>,
    after: Seq<Slot<K, V>>,
    hash: u64,
    key: K,
    hit: spec_fn(K, V, R) -> bool,
    miss: spec_fn(Result<(V, R), E>) -> bool,
    res: Result<R, E>,
) -> bool {
    if occupied(before, hash, &key) {
        &&& after == before
        &&& res is Ok
        &&& exists|i: int|
            0 <= i < before.len() && slot_matches(#[trigger] before[i], hash, &key) && hit(
                before[i].key,
                before[i].value,
                res->Ok_0,
            )
    } else {
        match res {
            Ok(r) => exists|value: V| #[trigger]
                miss(Ok((value, r))) && after == before.push(Slot { hash, key, value }),
            Err(e) => miss(Err(e)) && after == before,
        }
    }
}

/// The results that `with_result` may make from a stored pair.
pub open spec fn projected_results<K, V, T, F: FnOnce(&K, &V) -> T>(with_result: F) -> spec_fn(
    K,
    V,
    T,
) -> bool {
    |k: K, v: V, t: T| call_ensures(with_result, (&k, &v), t)
}

/// A clone of the stored value.
pub open spec fn cloned_results<K, V: Clone>() -> spec_fn(K, V, V) -> bool {
    |k: K, v: V, copy: V| cloned(v, copy)
}

/// What the stored value dereferences to.
pub open spec fn target_results<'a, K, V: Deref>() -> spec_fn(K, V, &'a V::Target) -> bool {
    |k: K, v: V, target: &V::Target| call_ensures(V::deref, (&v,), target)
}

/// `with_result` may be called on every stored pair whose key `key` denotes.
pub open spec fn projects_matches<Q: Equivalent<K> + ?Sized, K, V, T, F: FnOnce(&K, &V) -> T>(
    slots: Seq<Slot<K, V>>,
    key: &Q,
    with_result: F,
) -> bool {
    forall|i: int|
        0 <= i < slots.len() && key.equivalent_spec(&(#[trigger] slots[i]).key) ==> call_requires(
            with_result,
            (&slots[i].key, &slots[i].value),
        )
}

/// Every slot of `before` is in `after`, in its place and unchanged.
pub open spec fn keeps_slots<K, V>(before: Seq<Slot<K, V>>, after: Seq<Slot<K, V>>) -> bool {
    &&& before.len() <= after.len()
    &&& forall|i: int| 0 <= i < before.len() ==> #[trigger] after[i] == before[i]
}

/// `with_result` may be called on the pair of every slot that a probe with
/// `hash` and `key` looks for.
pub open spec fn projects_found<Q: Equivalent<K> + ?Sized, K, V, T, F: FnOnce(&K, &V) -> T>(
    slots: Seq<Slot<K, V>>,
    hash: u64,
    key: &Q,
    with_result: F,
) -> bool {
    forall|i: int|
        0 <= i < slots.len() && slot_matches(#[trigger] slots[i], hash, key) ==> call_requires(
            with_result,
            (&slots[i].key, &slots[i].value),
        )
}

/// `Q::to_owned_equivalent` builds a key that the query denotes.
pub open spec fn obeys_to_owned<Q: ToOwnedEquivalent<K> + ?Sized, K>() -> bool {
    Q::obeys_to_owned_spec()
}

/// The answers that `on_vacant` may give for the borrowed query `key`.
pub open spec fn query_results<Q: ?Sized, V, T, U, E, F: FnOnce(T, &Q) -> Result<(V, U), E>>(
    on_vacant: F,
    data: T,
    key: &Q,
) -> spec_fn(Result<(V, U), E>) -> bool {
    |out: Result<(V, U), E>| call_ensures(on_vacant, (data, key), out)
}

/// How a request with `hash` by the borrowed query `key` ends.
///
/// It ends as `entry_outcome` tells, but for the key of a new slot: that is
/// an owned key which the query denotes, built only where the place is
/// vacant and the factory has made a value.
pub open spec fn query_outcome<Q: Equivalent<K> + ?Sized, K, V, R, E>(
    before: Seq<Slot<K, V>>,
    after: Seq<Slot<K, V>>,
    hash: u64,
    key: &Q,
    hit: spec_fn(K, V, R) -> bool,
    miss: spec_fn(Result<(V, R), E>) -> bool,
    res: Result<R, E>,
) -> bool {
    if occupied(before, hash, key) {
        &&& after == before
        &&& res is Ok
        &&& exists|i: int|
            0 <= i < before.len() && slot_matches(#[trigger] before[i], hash, key) && hit(
                before[i].key,
                before[i].value,
                res->Ok_0,
            )
    } else {
        match res {
            Ok(r) => exists|value: V, owned: K|
                #![trigger miss(Ok((value, r))), key.equivalent_spec(&owned)]
                miss(Ok((value, r))) && key.equivalent_spec(&owned) && after == before.push(
                    Slot { hash, key: owned, value },
                ),
            Err(e) => miss(Err(e)) && after == before,
        }
    }
}

/// The results that `on_occupied` may make from a stored pair.
pub open spec fn occupied_results<K, V, T, U, G: FnOnce(T, &K, &V) -> U>(
    on_occupied: G,
    data: T,
) -> spec_fn(K, V, U) -> bool {
    |k: K, v: V, u: U| call_ensures(on_occupied, (data, &k, &v), u)
}

/// The answers that `on_vacant` may give for `key`.
pub open spec fn vacant_results<K, V, T, U, E, F: FnOnce(T, &K) -> Result<(V, U), E>>(
    on_vacant: F,
    data: T,
    key: K,
) -> spec_fn(Result<(V, U), E>) -> bool {
    |out: Result<(V, U), E>| call_ensures(on_vacant, (data, &key), out)
}

/// The answers of a factory that cannot fail: `Ok` of what `on_vacant` may
/// give for `key`.
pub open spec fn sure_results<K, V, T, U, F: FnOnce(T, &K) -> (V, U)>(
    on_vacant: F,
    data: T,
    key: K,
) -> spec_fn(Result<(V, U), Infallible>) -> bool {
    |out: Result<(V, U), Infallible>| out is Ok && call_ensures(on_vacant, (data, &key), out->Ok_0)
}

/// The answers that `make_val` may give for `key`.
pub open spec fn fallible_values<K, V, E, M: FnOnce(&K) -> Result<V, E>>(
    make_val: M,
    key: K,
) -> spec_fn(Result<V, E>) -> bool {
    |out: Result<V, E>| call_ensures(make_val, (&key,), out)
}

/// The answers of a factory that cannot fail: `Ok` of what `make_val` may
/// give for `key`.
pub open spec fn sure_values<K, V, M: FnOnce(&K) -> V>(make_val: M, key: K) -> spec_fn(
    Result<V, Infallible>,
) -> bool {
    |out: Result<V, Infallible>| out is Ok && call_ensures(make_val, (&key,), out->Ok_0)
}

/// The one answer of a factory that hands out a value it was given.
pub open spec fn given_value<V>(value: V) -> spec_fn(Result<V, Infallible>) -> bool {
    |out: Result<V, Infallible>| out == Ok::<V, Infallible>(value)
}

/// The answers of a factory that makes a value as `make` says and then the
/// result from `key` and that value as `project` says.
pub open spec fn made_then_projected<K, V, R, E>(
    make: spec_fn(Result<V, E>) -> bool,
    project: spec_fn(K, V, R) -> bool,
    key: K,
) -> spec_fn(Result<(V, R), E>) -> bool {
    |out: Result<(V, R), E>|
        match out {
            Ok((v, r)) => make(Ok(v)) && project(key, v, r),
            Err(e) => make(Err(e)),
        }
}

/// How an insertion with `hash` for `key` ends: `entry_outcome` for a
/// factory that makes the value as `make` says, where the result is made
/// from the pair as `project` says, be the pair found or new.
pub open spec fn insert_outcome<K: Eq + Hash, V, R, E>(
    before: Seq<Slot<K, V>>,
    after: Seq<Slot<K, V>>,
    hash: u64,
    key: K,
    make: spec_fn(Result<V, E>) -> bool,
    project: spec_fn(K, V, R) -> bool,
    res: Result<R, E>,
) -> bool {
    entry_outcome(before, after, hash, key, project, made_then_projected(make, project, key), res)
}

/// The pair that could not be stored: while its value was being made, a
/// pair was stored for the same request.
#[derive(Debug)]
pub struct ReentrantInit<K, V> {
    pub key: K,
    pub value: V,
}

/// How the publication of a value for a request with `hash` for `key` ends:
/// the pair is stored in a new last slot where the place is vacant; where
/// it is occupied nothing changes and the pair comes back.
pub open spec fn publish_outcome<K: Eq + Hash, V>(
    before: Seq<Slot<K, V>>,
    after: Seq<Slot<K, V>>,
    hash: u64,
    key: K,
    value: V,
    res: Result<(), ReentrantInit<K, V>>,
) -> bool {
    match res {
        Ok(_) => !occupied(before, hash, &key) && after == before.push(Slot { hash, key, value }),
        Err(refused) => occupied(before, hash, &key) && after == before && refused.key == key
            && refused.value == value,
    }
}

/// A request that ends in one way also ends in every way that accepts at
/// least the same results.
pub proof fn lemma_entry_outcome_weaken<K: Eq + Hash, V, R, E>(
    before: Seq<Slot<K, V>>,
    after: Seq<Slot<K, V>>,
    hash: u64,
    key: K,
    hit: spec_fn(K, V, R) -> bool,
    miss: spec_fn(Result<(V, R), E>) -> bool,
    wider_hit: spec_fn(K, V, R) -> bool,
    wider_miss: spec_fn(Result<(V, R), E>) -> bool,
    res: Result<R, E>,
)
    requires
        entry_outcome(before, after, hash, key, hit, miss, res),
        forall|k: K, v: V, r: R| #[trigger] hit(k, v, r) ==> wider_hit(k, v, r),
        forall|out: Result<(V, R), E>| #[trigger] miss(out) ==> wider_miss(out),
    ensures
        entry_outcome(before, after, hash, key, wider_hit, wider_miss, res),
{
    if occupied(before, hash, &key) {
        let i = choose|i: int|
            0 <= i < before.len() && slot_matches(#[trigger] before[i], hash, &key) && hit(
                before[i].key,
                before[i].value,
                res->Ok_0,
            );
        assert(wider_hit(before[i].key, before[i].value, res->Ok_0));
    } else {
        match res {
            Ok(r) => {
                let value = choose|value: V| #[trigger]
                    miss(Ok((value, r))) && after == before.push(Slot { hash, key, value });
                assert(wider_miss(Ok((value, r))));
            },
            Err(e) => {},
        }
    }
}

/// An insertion that ends in one way also ends in every way that accepts at
/// least the same values and results.
pub proof fn lemma_insert_outcome_weaken<K: Eq + Hash, V, R, E>(
    before: Seq<Slot<K, V>>,
    after: Seq<Slot<K, V>>,
    hash: u64,
    key: K,
    make: spec_fn(Result<V, E>) -> bool,
    project: spec_fn(K, V, R) -> bool,
    wider_make: spec_fn(Result<V, E>) -> bool,
    wider_project: spec_fn(K, V, R) -> bool,
    res: Result<R, E>,
)
    requires
        insert_outcome(before, after, hash, key, make, project, res),
        forall|out: Result<V, E>| #[trigger] make(out) ==> wider_make(out),
        forall|k: K, v: V, r: R| #[trigger] project(k, v, r) ==> wider_project(k, v, r),
    ensures
        insert_outcome(before, after, hash, key, wider_make, wider_project, res),
{
    let miss = made_then_projected(make, project, key);
    let wider_miss = made_then_projected(wider_make, wider_project, key);
    assert forall|out: Result<(V, R), E>| #[trigger] miss(out) implies wider_miss(out) by {
        match out {
            Ok((v, r)) => {
                assert(make(Ok(v)));
                assert(project(key, v, r));
            },
            Err(e) => {
                assert(make(Err(e)));
            },
        }
    }
    lemma_entry_outcome_weaken(
        before,
        after,
        hash,
        key,
        project,
        miss,
        wider_project,
        wider_miss,
        res,
    );
}

} // verus!
