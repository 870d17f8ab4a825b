//! The map for a single owner.
//!
//! A request for a key is hashed once. The probe with that hash either finds
//! the pair, and the result is made from the stored value without running the
//! factory, or it finds the place vacant: the factory runs, and what it made
//! is stored under the same hash. A stored pair is never overwritten.
//!
//! Every function that hashes has a companion that takes the hash, named
//! with `hashed_` in front. The companion does the work and its contract is
//! exact. The function itself hashes the key with the map's hash builder and
//! calls the companion with that number: its contract says that the number
//! is one that the key hashes to, and what holds for it.
//!
//! The map is borrowed exclusively by whoever changes it. A factory that
//! needs the map while it makes the value is handed it: see
//! `get_or_try_insert_reentrant`. Such a factory may store pairs for other
//! keys; a pair for the key whose value it is making is a fault, which the
//! request reports and does not repair. A caller that lets others use the
//! map between the probe and the insertion stores the value with `publish`.
use crate::equivalent::{Equivalent, ToOwnedEquivalent};
use crate::hashing::{default_hash_builder, hash_one, hashes_to};
use crate::infallible::unwrap_infallible;
use crate::outcome::{
    cloned_results, entry_outcome, fallible_values, given_value, insert_outcome,
    keeps_slots, lemma_entry_outcome_weaken, lemma_insert_outcome_weaken, made_then_projected,
    obeys_to_owned,
    occupied_results, projected_results, projects_found, projects_matches, publish_outcome,
    query_outcome, query_results, sure_results, sure_values, target_results, vacant_results,
    ReentrantInit,
};
use crate::raw::{
    lemma_lookup_outcome_weaken, lookup_outcome, obeys_equivalence, occupied, removal_outcome,
    same_pair, slot_matches, RawEntryMut, RawTable, Slot,
};
use core::convert::Infallible;
use core::hash::{BuildHasher, Hash};
use core::ops::Deref;
use stable_deref_trait::StableDeref;
use vstd::pervasive::cloned;
use vstd::prelude::*;

verus! {

/// How a request with `hash` for `key` ends that hands back the number of
/// the slot: that of a slot that is the one looked for, where nothing
/// changes, or that of the new last slot, which holds the value that the
/// factory made; or the factory's error, where nothing changes.
spec fn store_outcome<K: Eq + Hash, V, E>(
    before: Seq<Slot<K, V>>,
    after: Seq<Slot<K, V>>,
    hash: u64,
    key: K,
    make: spec_fn(Result<V, E>) -> bool,
    res: Result<usize, E>,
) -> bool {
    if occupied(before, hash, &key) {
        &&& after == before
        &&& res is Ok
        &&& res->Ok_0 < before.len()
        &&& slot_matches(before[res->Ok_0 as int], hash, &key)
    } else {
        match res {
            Ok(number) => {
                &&& number == before.len()
                &&& after.len() == before.len() + 1
                &&& make(Ok(after[number as int].value))
                &&& after == before.push(Slot { hash, key, value: after[number as int].value })
            },
            Err(e) => make(Err(e)) && after == before,
        }
    }
}

/// A clone of the value of a pair.
fn clone_value<K, V: Clone>(key: &K, value: &V) -> (copy: V)
    ensures
        cloned(*value, copy),
{
    value.clone()
}

/// A map that computes the value of a key at most once.
///
/// Its view is the sequence of its slots: each holds a pair and the hash the
/// pair was inserted with.
#[derive(Debug)]
pub struct OnceMap<K, V, S = hashbrown::hash_map::DefaultHashBuilder> {
    hash_builder: S,
    table: RawTable<K, V>,
}

impl<K, V, S> View for OnceMap<K, V, S> {
    type V = Seq<Slot<K, V>>;

    closed spec fn view(&self) -> Seq<Slot<K, V>> {
        self.table@
    }
}

impl<K, V, S> OnceMap<K, V, S> {
    /// The slot table is in order. Every constructor establishes this and
    /// every method keeps it.
    pub closed spec fn wf(&self) -> bool {
        self.table.wf()
    }

    /// The hash builder, fixed when the map is made.
    pub closed spec fn hasher_spec(&self) -> &S {
        &self.hash_builder
    }

    /// The pair in the slot with the given number, for walking over the
    /// map: the numbers below `len` are in use.
    pub fn pair(&self, number: usize) -> (pair: (&K, &V))
        requires
            number < self@.len(),
        ensures
            *pair.0 == self@[number as int].key,
            *pair.1 == self@[number as int].value,
    {
        let slot = self.table.slot(number);
        (&slot.key, &slot.value)
    }

    /// The map's hash builder.
    pub fn hasher(&self) -> (hash_builder: &S)
        ensures
            hash_builder == self.hasher_spec(),
    {
        &self.hash_builder
    }

    /// The number of stored pairs.
    pub fn len(&self) -> (len: usize)
        ensures
            len == self@.len(),
    {
        self.table.len()
    }

    /// Whether no pair is stored.
    pub fn is_empty(&self) -> (empty: bool)
        ensures
            empty == (self@.len() == 0),
    {
        self.table.is_empty()
    }

    /// Removes every pair. The hash builder stays.
    pub fn clear(&mut self)
        ensures
            final(self).wf(),
            final(self)@ == Seq::<Slot<K, V>>::empty(),
            final(self).hasher_spec() == old(self).hasher_spec(),
    {
        self.table.clear();
    }
}

impl<K, V> OnceMap<K, V> {
    /// An empty map with the default hash builder.
    pub fn new() -> (map: Self)
        ensures
            map.wf(),
            map@ == Seq::<Slot<K, V>>::empty(),
    {
        Self::with_hasher(default_hash_builder())
    }
}

impl<K, V, S> OnceMap<K, V, S> where S: Clone {
    /// An empty map that hashes with `hash_builder`.
    pub fn with_hasher(hash_builder: S) -> (map: Self)
        ensures
            map.wf(),
            map@ == Seq::<Slot<K, V>>::empty(),
            *map.hasher_spec() == hash_builder,
    {
        OnceMap { hash_builder, table: RawTable::new() }
    }
}

impl<K, V> Default for OnceMap<K, V> {
    fn default() -> (map: Self)
        ensures
            map.wf(),
            map@ == Seq::<Slot<K, V>>::empty(),
    {
        Self::new()
    }
}

impl<K, V, S> OnceMap<K, V, S> where K: Eq + Hash, S: BuildHasher {
    /// The hash of a request for `key`, from the map's hash builder.
    pub fn hash_key<Q: Hash + ?Sized>(&self, key: &Q) -> (hash: u64)
        ensures
            hashes_to(self.hasher_spec(), key, hash),
    {
        hash_one(&self.hash_builder, key)
    }

    /// Looks a pair up for a request whose hash is already known: the key
    /// and value of a slot that was inserted with `hash` and whose key `key`
    /// denotes, or `None` when there is none.
    pub fn get_raw_entry<Q: Equivalent<K> + ?Sized>(&self, hash: u64, key: &Q) -> (pair: Option<
        (&K, &V),
    >)
        requires
            self.wf(),
            obeys_equivalence::<Q, K>(),
        ensures
            lookup_outcome(self@, hash, key, same_pair(), pair),
    {
        self.table.get_raw_entry(hash, key)
    }

    /// Takes a pair out for a request whose hash is already known.
    pub fn remove_raw_entry<Q: Equivalent<K> + ?Sized>(&mut self, hash: u64, key: &Q) -> (pair:
        Option<(K, V)>)
        requires
            old(self).wf(),
            obeys_equivalence::<Q, K>(),
        ensures
            final(self).wf(),
            final(self).hasher_spec() == old(self).hasher_spec(),
            removal_outcome(old(self)@, final(self)@, hash, key, pair),
    {
        self.table.remove_raw_entry(hash, key)
    }

    /// Stores a value that was made for a request with `hash` for `key`
    /// while others could use the map, unless a pair has been stored for the
    /// same request in between: then the map is left as it is and the pair
    /// comes back.
    pub fn publish(&mut self, hash: u64, key: K, value: V) -> (res: Result<(), ReentrantInit<K, V>>)
        requires
            old(self).wf(),
            obeys_equivalence::<K, K>(),
        ensures
            final(self).wf(),
            final(self).hasher_spec() == old(self).hasher_spec(),
            publish_outcome(old(self)@, final(self)@, hash, key, value, res),
    {
        match self.table.get_raw_entry_mut(hash, &key) {
            RawEntryMut::Vacant => {
                self.table.insert_hashed_nocheck(hash, key, value);
                Ok(())
            },
            RawEntryMut::Occupied(number) => {
                assert(slot_matches(self@[number as int], hash, &key));
                Err(ReentrantInit { key, value })
            },
        }
    }

    /// `get_or_try_insert_with` for a request whose hash is already known.
    ///
    /// The probe and the insertion use `hash` as it is given. Where a slot
    /// is the one looked for, `on_vacant` is not called and need not even be
    /// callable. `entry_outcome` tells the rest.
    pub fn hashed_get_or_try_insert_with<F, G, E, T, U>(
        &mut self,
        hash: u64,
        key: K,
        data: T,
        on_vacant: F,
        on_occupied: G,
    ) -> (res: Result<U, E>) where F: FnOnce(T, &K) -> Result<(V, U), E>, G: FnOnce(T, &K, &V) -> U
        requires
            old(self).wf(),
            obeys_equivalence::<K, K>(),
            !occupied(old(self)@, hash, &key) ==> call_requires(on_vacant, (data, &key)),
            forall|i: int|
                0 <= i < old(self)@.len() && slot_matches(#[trigger] old(self)@[i], hash, &key)
                    ==> call_requires(on_occupied, (data, &old(self)@[i].key, &old(self)@[i].value)),
        ensures
            final(self).wf(),
            final(self).hasher_spec() == old(self).hasher_spec(),
            entry_outcome(
                old(self)@,
                final(self)@,
                hash,
                key,
                occupied_results(on_occupied, data),
                vacant_results(on_vacant, data, key),
                res,
            ),
    {
        match self.table.get_raw_entry_mut(hash, &key) {
            RawEntryMut::Occupied(number) => {
                let slot = self.table.slot(number);
                let ret = on_occupied(data, &slot.key, &slot.value);
                proof {
                    let hit = occupied_results::<K, V, T, U, G>(on_occupied, data);
                    let found = old(self)@[number as int];
                    assert(slot_matches(found, hash, &key));
                    assert(hit(found.key, found.value, ret));
                    assert(occupied(old(self)@, hash, &key));
                }
                Ok(ret)
            },
            RawEntryMut::Vacant => {
                match on_vacant(data, &key) {
                    Ok((value, ret)) => {
                        // The map is borrowed for the whole call: the place
                        // that the probe found vacant is vacant still.
                        self.table.insert_hashed_nocheck(hash, key, value);
                        proof {
                            let miss = vacant_results(on_vacant, data, key);
                            assert(miss(Ok((value, ret))));
                        }
                        Ok(ret)
                    },
                    Err(e) => Err(e),
                }
            },
        }
    }

    /// Looks `key` up and makes the result from the stored pair with
    /// `on_occupied`; where the key is absent, runs `on_vacant`, stores the
    /// value it made and hands on the result it made, or hands on its error
    /// and stores nothing.
    ///
    /// The key is hashed once, with the map's hash builder, and
    /// `entry_outcome` holds for that hash.
    pub fn get_or_try_insert_with<F, G, E, T, U>(
        &mut self,
        key: K,
        data: T,
        on_vacant: F,
        on_occupied: G,
    ) -> (res: Result<U, E>) where F: FnOnce(T, &K) -> Result<(V, U), E>, G: FnOnce(T, &K, &V) -> U
        requires
            old(self).wf(),
            obeys_equivalence::<K, K>(),
            call_requires(on_vacant, (data, &key)),
            forall|i: int|
                0 <= i < old(self)@.len() && key.equivalent_spec(&(#[trigger] old(self)@[i]).key)
                    ==> call_requires(on_occupied, (data, &old(self)@[i].key, &old(self)@[i].value)),
        ensures
            final(self).wf(),
            final(self).hasher_spec() == old(self).hasher_spec(),
            exists|hash: u64|
                {
                    &&& #[trigger] hashes_to(old(self).hasher_spec(), &key, hash)
                    &&& entry_outcome(
                        old(self)@,
                        final(self)@,
                        hash,
                        key,
                        occupied_results(on_occupied, data),
                        vacant_results(on_vacant, data, key),
                        res,
                    )
                },
    {
        let hash = self.hash_key(&key);
        self.hashed_get_or_try_insert_with(hash, key, data, on_vacant, on_occupied)
    }

    /// `get_or_insert_with` for a request whose hash is already known.
    pub fn hashed_get_or_insert_with<F, G, T, U>(
        &mut self,
        hash: u64,
        key: K,
        data: T,
        on_vacant: F,
        on_occupied: G,
    ) -> (res: U) where F: FnOnce(T, &K) -> (V, U), G: FnOnce(T, &K, &V) -> U
        requires
            old(self).wf(),
            obeys_equivalence::<K, K>(),
            !occupied(old(self)@, hash, &key) ==> call_requires(on_vacant, (data, &key)),
            forall|i: int|
                0 <= i < old(self)@.len() && slot_matches(#[trigger] old(self)@[i], hash, &key)
                    ==> call_requires(on_occupied, (data, &old(self)@[i].key, &old(self)@[i].value)),
        ensures
            final(self).wf(),
            final(self).hasher_spec() == old(self).hasher_spec(),
            entry_outcome(
                old(self)@,
                final(self)@,
                hash,
                key,
                occupied_results(on_occupied, data),
                sure_results(on_vacant, data, key),
                Ok::<U, Infallible>(res),
            ),
    {
        let fallible = |data: T, k: &K| -> (out: Result<(V, U), Infallible>)
            requires
                call_requires(on_vacant, (data, k)),
            ensures
                out is Ok && call_ensures(on_vacant, (data, k), out->Ok_0),
            { Ok(on_vacant(data, k)) };
        let res = self.hashed_get_or_try_insert_with(hash, key, data, fallible, on_occupied);
        proof {
            let hit = occupied_results::<K, V, T, U, G>(on_occupied, data);
            let miss = vacant_results(fallible, data, key);
            lemma_entry_outcome_weaken(
                old(self)@,
                final(self)@,
                hash,
                key,
                hit,
                miss,
                hit,
                sure_results(on_vacant, data, key),
                res,
            );
            if res is Err {
                assert(miss(Err(res->Err_0)));
            }
        }
        unwrap_infallible(res)
    }

    /// `get_or_try_insert_with` for a factory that cannot fail.
    pub fn get_or_insert_with<F, G, T, U>(
        &mut self,
        key: K,
        data: T,
        on_vacant: F,
        on_occupied: G,
    ) -> (res: U) where F: FnOnce(T, &K) -> (V, U), G: FnOnce(T, &K, &V) -> U
        requires
            old(self).wf(),
            obeys_equivalence::<K, K>(),
            call_requires(on_vacant, (data, &key)),
            forall|i: int|
                0 <= i < old(self)@.len() && key.equivalent_spec(&(#[trigger] old(self)@[i]).key)
                    ==> call_requires(on_occupied, (data, &old(self)@[i].key, &old(self)@[i].value)),
        ensures
            final(self).wf(),
            final(self).hasher_spec() == old(self).hasher_spec(),
            exists|hash: u64|
                {
                    &&& #[trigger] hashes_to(old(self).hasher_spec(), &key, hash)
                    &&& entry_outcome(
                        old(self)@,
                        final(self)@,
                        hash,
                        key,
                        occupied_results(on_occupied, data),
                        sure_results(on_vacant, data, key),
                        Ok::<U, Infallible>(res),
                    )
                },
    {
        let hash = self.hash_key(&key);
        self.hashed_get_or_insert_with(hash, key, data, on_vacant, on_occupied)
    }

    /// `get_or_try_insert_ref` for a request whose hash is already known.
    ///
    /// The probe compares the borrowed query with the stored keys. Only
    /// where the place is vacant and the factory has made a value is the
    /// query turned into the key to store, once.
    pub fn hashed_get_or_try_insert_ref<Q, F, G, E, T, U>(
        &mut self,
        hash: u64,
        key: &Q,
        data: T,
        on_vacant: F,
        on_occupied: G,
    ) -> (res: Result<U, E>) where
        Q: ToOwnedEquivalent<K> + ?Sized,
        F: FnOnce(T, &Q) -> Result<(V, U), E>,
        G: FnOnce(T, &K, &V) -> U,

        requires
            old(self).wf(),
            obeys_equivalence::<Q, K>(),
            obeys_to_owned::<Q, K>(),
            !occupied(old(self)@, hash, key) ==> call_requires(on_vacant, (data, key)),
            forall|i: int|
                0 <= i < old(self)@.len() && slot_matches(#[trigger] old(self)@[i], hash, key)
                    ==> call_requires(on_occupied, (data, &old(self)@[i].key, &old(self)@[i].value)),
        ensures
            final(self).wf(),
            final(self).hasher_spec() == old(self).hasher_spec(),
            query_outcome(
                old(self)@,
                final(self)@,
                hash,
                key,
                occupied_results(on_occupied, data),
                query_results(on_vacant, data, key),
                res,
            ),
    {
        match self.table.get_raw_entry_mut(hash, key) {
            RawEntryMut::Occupied(number) => {
                let slot = self.table.slot(number);
                let ret = on_occupied(data, &slot.key, &slot.value);
                proof {
                    let hit = occupied_results::<K, V, T, U, G>(on_occupied, data);
                    let found = old(self)@[number as int];
                    assert(slot_matches(found, hash, key));
                    assert(hit(found.key, found.value, ret));
                    assert(occupied(old(self)@, hash, key));
                }
                Ok(ret)
            },
            RawEntryMut::Vacant => {
                match on_vacant(data, key) {
                    Ok((value, ret)) => {
                        let owned = key.to_owned_equivalent();
                        self.table.insert_hashed_nocheck(hash, owned, value);
                        proof {
                            let miss = query_results(on_vacant, data, key);
                            assert(miss(Ok((value, ret))));
                            assert(key.equivalent_spec(&owned));
                        }
                        Ok(ret)
                    },
                    Err(e) => Err(e),
                }
            },
        }
    }

    /// `get_or_try_insert_with` by a borrowed query: the owned key is built
    /// from the query only when a pair is stored.
    ///
    /// The query is hashed once, with the map's hash builder, and
    /// `query_outcome` holds for that hash.
    pub fn get_or_try_insert_ref<Q, F, G, E, T, U>(
        &mut self,
        key: &Q,
        data: T,
        on_vacant: F,
        on_occupied: G,
    ) -> (res: Result<U, E>) where
        Q: Hash + ToOwnedEquivalent<K> + ?Sized,
        F: FnOnce(T, &Q) -> Result<(V, U), E>,
        G: FnOnce(T, &K, &V) -> U,

        requires
            old(self).wf(),
            obeys_equivalence::<Q, K>(),
            obeys_to_owned::<Q, K>(),
            call_requires(on_vacant, (data, key)),
            forall|i: int|
                0 <= i < old(self)@.len() && key.equivalent_spec(&(#[trigger] old(self)@[i]).key)
                    ==> call_requires(on_occupied, (data, &old(self)@[i].key, &old(self)@[i].value)),
        ensures
            final(self).wf(),
            final(self).hasher_spec() == old(self).hasher_spec(),
            exists|hash: u64|
                {
                    &&& #[trigger] hashes_to(old(self).hasher_spec(), key, hash)
                    &&& query_outcome(
                        old(self)@,
                        final(self)@,
                        hash,
                        key,
                        occupied_results(on_occupied, data),
                        query_results(on_vacant, data, key),
                        res,
                    )
                },
    {
        let hash = self.hash_key(key);
        self.hashed_get_or_try_insert_ref(hash, key, data, on_vacant, on_occupied)
    }
}

impl<K, V, S> OnceMap<K, V, S> where K: Eq + Hash, S: BuildHasher {
    /// `get_or_try_insert_reentrant` for a request whose hash is already
    /// known.
    ///
    /// The factory is handed the map while the value is being made: it may
    /// look into it and may store pairs for other keys, but it leaves every
    /// stored pair in its place and the hash builder as it is. When it has
    /// made the value, the place is probed again with the same hash. A
    /// factory that has stored a pair for the same request has its value
    /// refused: the pair it stored stays, and the value comes back in the
    /// fault.
    pub fn hashed_get_or_try_insert_reentrant<F, G, E, T, U>(
        &mut self,
        hash: u64,
        key: K,
        data: T,
        on_vacant: F,
        on_occupied: G,
    ) -> (res: Result<Result<U, E>, ReentrantInit<K, V>>) where
        F: FnOnce(&mut Self, T, &K) -> Result<(V, U), E>,
        G: FnOnce(T, &K, &V) -> U,

        requires
            old(self).wf(),
            obeys_equivalence::<K, K>(),
            forall|i: int|
                0 <= i < old(self)@.len() && slot_matches(#[trigger] old(self)@[i], hash, &key)
                    ==> call_requires(on_occupied, (data, &old(self)@[i].key, &old(self)@[i].value)),
            !occupied(old(self)@, hash, &key) ==> forall|map: &mut Self|
                *map == *old(self) ==> #[trigger] call_requires(on_vacant, (map, data, &key)),
            forall|map: &mut Self, out: Result<(V, U), E>|
                *map == *old(self) && #[trigger] call_ensures(on_vacant, (map, data, &key), out)
                    ==> {
                    &&& final(map).wf()
                    &&& final(map).hasher_spec() == old(self).hasher_spec()
                    &&& keeps_slots(old(self)@, final(map)@)
                },
        ensures
            final(self).wf(),
            final(self).hasher_spec() == old(self).hasher_spec(),
            keeps_slots(old(self)@, final(self)@),
            occupied(old(self)@, hash, &key) ==> {
                &&& final(self)@ == old(self)@
                &&& res is Ok && res->Ok_0 is Ok
                &&& exists|i: int|
                    0 <= i < old(self)@.len() && slot_matches(
                        #[trigger] old(self)@[i],
                        hash,
                        &key,
                    ) && call_ensures(
                        on_occupied,
                        (data, &old(self)@[i].key, &old(self)@[i].value),
                        res->Ok_0->Ok_0,
                    )
            },
            !occupied(old(self)@, hash, &key) ==> exists|
                map: &mut Self,
                out: Result<(V, U), E>,
            |
                {
                    &&& *map == *old(self)
                    &&& #[trigger] call_ensures(on_vacant, (map, data, &key), out)
                    &&& match out {
                        Err(e) => res == Ok::<Result<U, E>, ReentrantInit<K, V>>(Err(e))
                            && final(self)@ == final(map)@,
                        Ok((value, u)) => match res {
                            Ok(made) => made == Ok::<U, E>(u) && publish_outcome(
                                final(map)@,
                                final(self)@,
                                hash,
                                key,
                                value,
                                Ok(()),
                            ),
                            Err(refused) => publish_outcome(
                                final(map)@,
                                final(self)@,
                                hash,
                                key,
                                value,
                                Err(refused),
                            ),
                        },
                    }
                },
    {
        match self.table.get_raw_entry_mut(hash, &key) {
            RawEntryMut::Occupied(number) => {
                let slot = self.table.slot(number);
                let ret = on_occupied(data, &slot.key, &slot.value);
                assert(slot_matches(old(self)@[number as int], hash, &key));
                Ok(Ok(ret))
            },
            RawEntryMut::Vacant => {
                let out = on_vacant(self, data, &key);
                match out {
                    Ok((value, ret)) => {
                        match self.publish(hash, key, value) {
                            Ok(()) => Ok(Ok(ret)),
                            Err(refused) => Err(refused),
                        }
                    },
                    Err(e) => Ok(Err(e)),
                }
            },
        }
    }

    /// `get_or_try_insert_with` for a factory that works on the map itself.
    ///
    /// The key is hashed once, with the map's hash builder and before the
    /// factory runs, and what `hashed_get_or_try_insert_reentrant` states
    /// holds for that hash.
    pub fn get_or_try_insert_reentrant<F, G, E, T, U>(
        &mut self,
        key: K,
        data: T,
        on_vacant: F,
        on_occupied: G,
    ) -> (res: Result<Result<U, E>, ReentrantInit<K, V>>) where
        F: FnOnce(&mut Self, T, &K) -> Result<(V, U), E>,
        G: FnOnce(T, &K, &V) -> U,

        requires
            old(self).wf(),
            obeys_equivalence::<K, K>(),
            forall|i: int|
                0 <= i < old(self)@.len() && key.equivalent_spec(&(#[trigger] old(self)@[i]).key)
                    ==> call_requires(on_occupied, (data, &old(self)@[i].key, &old(self)@[i].value)),
            forall|map: &mut Self|
                *map == *old(self) ==> #[trigger] call_requires(on_vacant, (map, data, &key)),
            forall|map: &mut Self, out: Result<(V, U), E>|
                *map == *old(self) && #[trigger] call_ensures(on_vacant, (map, data, &key), out)
                    ==> {
                    &&& final(map).wf()
                    &&& final(map).hasher_spec() == old(self).hasher_spec()
                    &&& keeps_slots(old(self)@, final(map)@)
                },
        ensures
            final(self).wf(),
            final(self).hasher_spec() == old(self).hasher_spec(),
            keeps_slots(old(self)@, final(self)@),
            exists|hash: u64|
                {
                    &&& #[trigger] hashes_to(old(self).hasher_spec(), &key, hash)
                    &&& occupied(old(self)@, hash, &key) ==> {
                        &&& final(self)@ == old(self)@
                        &&& res is Ok && res->Ok_0 is Ok
                        &&& exists|i: int|
                            0 <= i < old(self)@.len() && slot_matches(
                                #[trigger] old(self)@[i],
                                hash,
                                &key,
                            ) && call_ensures(
                                on_occupied,
                                (data, &old(self)@[i].key, &old(self)@[i].value),
                                res->Ok_0->Ok_0,
                            )
                    }
                    &&& !occupied(old(self)@, hash, &key) ==> exists|
                        map: &mut Self,
                        out: Result<(V, U), E>,
                    |
                        {
                            &&& *map == *old(self)
                            &&& #[trigger] call_ensures(on_vacant, (map, data, &key), out)
                            &&& match out {
                                Err(e) => res == Ok::<Result<U, E>, ReentrantInit<K, V>>(Err(e))
                                    && final(self)@ == final(map)@,
                                Ok((value, u)) => match res {
                                    Ok(made) => made == Ok::<U, E>(u) && publish_outcome(
                                        final(map)@,
                                        final(self)@,
                                        hash,
                                        key,
                                        value,
                                        Ok(()),
                                    ),
                                    Err(refused) => publish_outcome(
                                        final(map)@,
                                        final(self)@,
                                        hash,
                                        key,
                                        value,
                                        Err(refused),
                                    ),
                                },
                            }
                        }
                },
    {
        let hash = self.hash_key(&key);
        self.hashed_get_or_try_insert_reentrant(hash, key, data, on_vacant, on_occupied)
    }
}

impl<K, V, S> OnceMap<K, V, S> where K: Eq + Hash, S: BuildHasher {
    /// `map_try_insert_with` for a request whose hash is already known.
    pub fn hashed_map_try_insert_with<M, E, F, T>(
        &mut self,
        hash: u64,
        key: K,
        make_val: M,
        with_result: F,
    ) -> (res: Result<T, E>) where M: FnOnce(&K) -> Result<V, E>, F: FnOnce(&K, &V) -> T
        requires
            old(self).wf(),
            obeys_equivalence::<K, K>(),
            !occupied(old(self)@, hash, &key) ==> {
                &&& call_requires(make_val, (&key,))
                &&& forall|v: V| #[trigger]
                    call_ensures(make_val, (&key,), Ok::<V, E>(v)) ==> call_requires(
                        with_result,
                        (&key, &v),
                    )
            },
            projects_found(old(self)@, hash, &key, with_result),
        ensures
            final(self).wf(),
            final(self).hasher_spec() == old(self).hasher_spec(),
            insert_outcome(
                old(self)@,
                final(self)@,
                hash,
                key,
                fallible_values(make_val, key),
                projected_results(with_result),
                res,
            ),
    {
        let on_vacant = |with_result: F, k: &K| -> (out: Result<(V, T), E>)
            requires
                call_requires(make_val, (k,)),
                forall|v: V| #[trigger]
                    call_ensures(make_val, (k,), Ok::<V, E>(v)) ==> call_requires(
                        with_result,
                        (k, &v),
                    ),
            ensures
                match out {
                    Ok((v, t)) => call_ensures(make_val, (k,), Ok::<V, E>(v)) && call_ensures(
                        with_result,
                        (k, &v),
                        t,
                    ),
                    Err(e) => call_ensures(make_val, (k,), Err::<V, E>(e)),
                },
            {
                match make_val(k) {
                    Ok(v) => {
                        let ret = with_result(k, &v);
                        Ok((v, ret))
                    },
                    Err(e) => Err(e),
                }
            };
        let on_occupied = |with_result: F, k: &K, v: &V| -> (t: T)
            requires
                call_requires(with_result, (k, v)),
            ensures
                call_ensures(with_result, (k, v), t),
            { with_result(k, v) };
        let res = self.hashed_get_or_try_insert_with(hash, key, with_result, on_vacant, on_occupied);
        proof {
            let hit = occupied_results::<K, V, F, T, _>(on_occupied, with_result);
            let miss = vacant_results(on_vacant, with_result, key);
            let project = projected_results::<K, V, T, F>(with_result);
            let make = fallible_values(make_val, key);
            let wider_miss = made_then_projected(make, project, key);
            assert forall|out: Result<(V, T), E>| #[trigger] miss(out) implies wider_miss(out) by {
                match out {
                    Ok((v, t)) => {
                        assert(make(Ok(v)));
                        assert(project(key, v, t));
                    },
                    Err(e) => {
                        assert(make(Err(e)));
                    },
                }
            }
            assert forall|k: K, v: V, t: T| #[trigger] hit(k, v, t) implies project(k, v, t) by {
                assert(call_ensures(on_occupied, (with_result, &k, &v), t));
            }
            lemma_entry_outcome_weaken(
                old(self)@,
                final(self)@,
                hash,
                key,
                hit,
                miss,
                project,
                wider_miss,
                res,
            );
        }
        res
    }

    /// Looks `key` up and makes the result from the stored pair with
    /// `with_result`; where the key is absent, makes the value with
    /// `make_val`, the result from the new pair, and stores the pair, or
    /// hands on the error of `make_val` and stores nothing.
    ///
    /// The key is hashed once, with the map's hash builder, and
    /// `insert_outcome` holds for that hash.
    pub fn map_try_insert_with<M, E, F, T>(&mut self, key: K, make_val: M, with_result: F) -> (res:
        Result<T, E>) where M: FnOnce(&K) -> Result<V, E>, F: FnOnce(&K, &V) -> T
        requires
            old(self).wf(),
            obeys_equivalence::<K, K>(),
            call_requires(make_val, (&key,)),
            forall|v: V| #[trigger]
                call_ensures(make_val, (&key,), Ok::<V, E>(v)) ==> call_requires(
                    with_result,
                    (&key, &v),
                ),
            projects_matches(old(self)@, &key, with_result),
        ensures
            final(self).wf(),
            final(self).hasher_spec() == old(self).hasher_spec(),
            exists|hash: u64|
                {
                    &&& #[trigger] hashes_to(old(self).hasher_spec(), &key, hash)
                    &&& insert_outcome(
                        old(self)@,
                        final(self)@,
                        hash,
                        key,
                        fallible_values(make_val, key),
                        projected_results(with_result),
                        res,
                    )
                },
    {
        let hash = self.hash_key(&key);
        self.hashed_map_try_insert_with(hash, key, make_val, with_result)
    }

    /// `map_insert_with` for a request whose hash is already known.
    pub fn hashed_map_insert_with<M, F, T>(
        &mut self,
        hash: u64,
        key: K,
        make_val: M,
        with_result: F,
    ) -> (res: T) where M: FnOnce(&K) -> V, F: FnOnce(&K, &V) -> T
        requires
            old(self).wf(),
            obeys_equivalence::<K, K>(),
            !occupied(old(self)@, hash, &key) ==> {
                &&& call_requires(make_val, (&key,))
                &&& forall|v: V| #[trigger]
                    call_ensures(make_val, (&key,), v) ==> call_requires(with_result, (&key, &v))
            },
            projects_found(old(self)@, hash, &key, with_result),
        ensures
            final(self).wf(),
            final(self).hasher_spec() == old(self).hasher_spec(),
            insert_outcome(
                old(self)@,
                final(self)@,
                hash,
                key,
                sure_values(make_val, key),
                projected_results(with_result),
                Ok::<T, Infallible>(res),
            ),
    {
        let fallible = |k: &K| -> (out: Result<V, Infallible>)
            requires
                call_requires(make_val, (k,)),
            ensures
                out is Ok && call_ensures(make_val, (k,), out->Ok_0),
            { Ok(make_val(k)) };
        let res = self.hashed_map_try_insert_with(hash, key, fallible, with_result);
        proof {
            let make = fallible_values(fallible, key);
            let project = projected_results::<K, V, T, F>(with_result);
            lemma_insert_outcome_weaken(
                old(self)@,
                final(self)@,
                hash,
                key,
                make,
                project,
                sure_values(make_val, key),
                project,
                res,
            );
            if res is Err {
                assert(made_then_projected(make, project, key)(Err(res->Err_0)));
                assert(make(Err(res->Err_0)));
            }
        }
        unwrap_infallible(res)
    }

    /// `map_try_insert_with` for a factory that cannot fail.
    pub fn map_insert_with<M, F, T>(&mut self, key: K, make_val: M, with_result: F) -> (res: T) where
        M: FnOnce(&K) -> V,
        F: FnOnce(&K, &V) -> T,

        requires
            old(self).wf(),
            obeys_equivalence::<K, K>(),
            call_requires(make_val, (&key,)),
            forall|v: V| #[trigger]
                call_ensures(make_val, (&key,), v) ==> call_requires(with_result, (&key, &v)),
            projects_matches(old(self)@, &key, with_result),
        ensures
            final(self).wf(),
            final(self).hasher_spec() == old(self).hasher_spec(),
            exists|hash: u64|
                {
                    &&& #[trigger] hashes_to(old(self).hasher_spec(), &key, hash)
                    &&& insert_outcome(
                        old(self)@,
                        final(self)@,
                        hash,
                        key,
                        sure_values(make_val, key),
                        projected_results(with_result),
                        Ok::<T, Infallible>(res),
                    )
                },
    {
        let hash = self.hash_key(&key);
        self.hashed_map_insert_with(hash, key, make_val, with_result)
    }

    /// `map_insert` for a request whose hash is already known.
    pub fn hashed_map_insert<F, T>(&mut self, hash: u64, key: K, value: V, with_result: F) -> (res:
        T) where F: FnOnce(&K, &V) -> T
        requires
            old(self).wf(),
            obeys_equivalence::<K, K>(),
            !occupied(old(self)@, hash, &key) ==> call_requires(with_result, (&key, &value)),
            projects_found(old(self)@, hash, &key, with_result),
        ensures
            final(self).wf(),
            final(self).hasher_spec() == old(self).hasher_spec(),
            insert_outcome(
                old(self)@,
                final(self)@,
                hash,
                key,
                given_value(value),
                projected_results(with_result),
                Ok::<T, Infallible>(res),
            ),
    {
        let hand_out = |k: &K| -> (out: V)
            ensures
                out == value,
            { value };
        let res = self.hashed_map_insert_with(hash, key, hand_out, with_result);
        proof {
            let project = projected_results::<K, V, T, F>(with_result);
            lemma_insert_outcome_weaken(
                old(self)@,
                final(self)@,
                hash,
                key,
                sure_values(hand_out, key),
                project,
                given_value(value),
                project,
                Ok::<T, Infallible>(res),
            );
        }
        res
    }

    /// `map_insert_with` for a value that is already made.
    pub fn map_insert<F, T>(&mut self, key: K, value: V, with_result: F) -> (res: T) where
        F: FnOnce(&K, &V) -> T,

        requires
            old(self).wf(),
            obeys_equivalence::<K, K>(),
            call_requires(with_result, (&key, &value)),
            projects_matches(old(self)@, &key, with_result),
        ensures
            final(self).wf(),
            final(self).hasher_spec() == old(self).hasher_spec(),
            exists|hash: u64|
                {
                    &&& #[trigger] hashes_to(old(self).hasher_spec(), &key, hash)
                    &&& insert_outcome(
                        old(self)@,
                        final(self)@,
                        hash,
                        key,
                        given_value(value),
                        projected_results(with_result),
                        Ok::<T, Infallible>(res),
                    )
                },
    {
        let hash = self.hash_key(&key);
        self.hashed_map_insert(hash, key, value, with_result)
    }

    /// `map_get` for a request whose hash is already known.
    pub fn hashed_map_get<Q, F, T>(&self, hash: u64, key: &Q, with_result: F) -> (res: Option<
        T,
    >) where Q: Equivalent<K> + ?Sized, F: FnOnce(&K, &V) -> T
        requires
            self.wf(),
            obeys_equivalence::<Q, K>(),
            projects_found(self@, hash, key, with_result),
        ensures
            lookup_outcome(self@, hash, key, projected_results(with_result), res),
    {
        match self.table.get_raw_entry_mut(hash, key) {
            RawEntryMut::Occupied(number) => {
                let slot = self.table.slot(number);
                let ret = with_result(&slot.key, &slot.value);
                proof {
                    let found = self@[number as int];
                    assert(slot_matches(found, hash, key));
                    assert(projected_results::<K, V, T, F>(with_result)(
                        found.key,
                        found.value,
                        ret,
                    ));
                }
                Some(ret)
            },
            RawEntryMut::Vacant => None,
        }
    }

    /// Looks `key` up and hands the stored pair to `with_result`.
    ///
    /// The key is hashed once, with the map's hash builder, and
    /// `lookup_outcome` holds for that hash. The map is only read.
    pub fn map_get<Q, F, T>(&self, key: &Q, with_result: F) -> (res: Option<T>) where
        Q: Hash + Equivalent<K> + ?Sized,
        F: FnOnce(&K, &V) -> T,

        requires
            self.wf(),
            obeys_equivalence::<Q, K>(),
            projects_matches(self@, key, with_result),
        ensures
            exists|hash: u64|
                {
                    &&& #[trigger] hashes_to(self.hasher_spec(), key, hash)
                    &&& lookup_outcome(self@, hash, key, projected_results(with_result), res)
                },
    {
        let hash = self.hash_key(key);
        self.hashed_map_get(hash, key, with_result)
    }

    /// `contains_key` for a request whose hash is already known.
    pub fn hashed_contains_key<Q>(&self, hash: u64, key: &Q) -> (found: bool) where
        Q: Equivalent<K> + ?Sized,

        requires
            self.wf(),
            obeys_equivalence::<Q, K>(),
        ensures
            found == occupied(self@, hash, key),
    {
        match self.table.get_raw_entry_mut(hash, key) {
            RawEntryMut::Occupied(number) => {
                assert(slot_matches(self@[number as int], hash, key));
                true
            },
            RawEntryMut::Vacant => false,
        }
    }

    /// Whether a pair is stored for `key`.
    ///
    /// The key is hashed once, with the map's hash builder; the answer is
    /// whether a slot was inserted with that hash under a key that `key`
    /// denotes.
    pub fn contains_key<Q>(&self, key: &Q) -> (found: bool) where Q: Hash + Equivalent<K> + ?Sized
        requires
            self.wf(),
            obeys_equivalence::<Q, K>(),
        ensures
            exists|hash: u64|
                {
                    &&& #[trigger] hashes_to(self.hasher_spec(), key, hash)
                    &&& found == occupied(self@, hash, key)
                },
    {
        let hash = self.hash_key(key);
        self.hashed_contains_key(hash, key)
    }

    /// Takes the pair for `key` out of the map and hands it back.
    ///
    /// The key is hashed once, with the map's hash builder, and
    /// `removal_outcome` holds for that hash.
    pub fn remove_entry<Q>(&mut self, key: &Q) -> (pair: Option<(K, V)>) where
        Q: Hash + Equivalent<K> + ?Sized,

        requires
            old(self).wf(),
            obeys_equivalence::<Q, K>(),
        ensures
            final(self).wf(),
            final(self).hasher_spec() == old(self).hasher_spec(),
            exists|hash: u64|
                {
                    &&& #[trigger] hashes_to(old(self).hasher_spec(), key, hash)
                    &&& removal_outcome(old(self)@, final(self)@, hash, key, pair)
                },
    {
        let hash = self.hash_key(key);
        self.remove_raw_entry(hash, key)
    }

    /// `remove` for a request whose hash is already known: `remove_raw_entry`
    /// without the key.
    pub fn hashed_remove<Q>(&mut self, hash: u64, key: &Q) -> (value: Option<V>) where
        Q: Equivalent<K> + ?Sized,

        requires
            old(self).wf(),
            obeys_equivalence::<Q, K>(),
        ensures
            final(self).wf(),
            final(self).hasher_spec() == old(self).hasher_spec(),
            exists|pair: Option<(K, V)>|
                {
                    &&& #[trigger] removal_outcome(old(self)@, final(self)@, hash, key, pair)
                    &&& match pair {
                        Some((_, v)) => value == Some(v),
                        None => value is None,
                    }
                },
    {
        match self.remove_raw_entry(hash, key) {
            Some((_, v)) => Some(v),
            None => None,
        }
    }

    /// Takes the pair for `key` out of the map and hands its value back.
    ///
    /// The key is hashed once, with the map's hash builder, and what
    /// `hashed_remove` states holds for that hash.
    pub fn remove<Q>(&mut self, key: &Q) -> (value: Option<V>) where
        Q: Hash + Equivalent<K> + ?Sized,

        requires
            old(self).wf(),
            obeys_equivalence::<Q, K>(),
        ensures
            final(self).wf(),
            final(self).hasher_spec() == old(self).hasher_spec(),
            exists|hash: u64|
                {
                    &&& #[trigger] hashes_to(old(self).hasher_spec(), key, hash)
                    &&& exists|pair: Option<(K, V)>|
                        {
                            &&& #[trigger] removal_outcome(
                                old(self)@,
                                final(self)@,
                                hash,
                                key,
                                pair,
                            )
                            &&& match pair {
                                Some((_, v)) => value == Some(v),
                                None => value is None,
                            }
                        }
                },
    {
        let hash = self.hash_key(key);
        self.hashed_remove(hash, key)
    }
}

impl<K, V, S> OnceMap<K, V, S> where K: Eq + Hash, S: BuildHasher, V: Clone {
    /// `insert_cloned` for a request whose hash is already known.
    pub fn hashed_insert_cloned(&mut self, hash: u64, key: K, value: V) -> (res: V)
        requires
            old(self).wf(),
            obeys_equivalence::<K, K>(),
        ensures
            final(self).wf(),
            final(self).hasher_spec() == old(self).hasher_spec(),
            insert_outcome(
                old(self)@,
                final(self)@,
                hash,
                key,
                given_value(value),
                cloned_results(),
                Ok::<V, Infallible>(res),
            ),
    {
        let res = self.hashed_map_insert(hash, key, value, clone_value::<K, V>);
        proof {
            lemma_insert_outcome_weaken(
                old(self)@,
                final(self)@,
                hash,
                key,
                given_value(value),
                projected_results(clone_value::<K, V>),
                given_value(value),
                cloned_results(),
                Ok::<V, Infallible>(res),
            );
        }
        res
    }

    /// Stores `value` for `key` unless a pair is stored already, and hands
    /// back a clone of the value that is stored then.
    ///
    /// The key is hashed once, with the map's hash builder, and
    /// `insert_outcome` holds for that hash.
    pub fn insert_cloned(&mut self, key: K, value: V) -> (res: V)
        requires
            old(self).wf(),
            obeys_equivalence::<K, K>(),
        ensures
            final(self).wf(),
            final(self).hasher_spec() == old(self).hasher_spec(),
            exists|hash: u64|
                {
                    &&& #[trigger] hashes_to(old(self).hasher_spec(), &key, hash)
                    &&& insert_outcome(
                        old(self)@,
                        final(self)@,
                        hash,
                        key,
                        given_value(value),
                        cloned_results(),
                        Ok::<V, Infallible>(res),
                    )
                },
    {
        let hash = self.hash_key(&key);
        self.hashed_insert_cloned(hash, key, value)
    }

    /// `insert_with_cloned` for a request whose hash is already known.
    pub fn hashed_insert_with_cloned<M>(&mut self, hash: u64, key: K, make_val: M) -> (res: V) where
        M: FnOnce(&K) -> V,

        requires
            old(self).wf(),
            obeys_equivalence::<K, K>(),
            !occupied(old(self)@, hash, &key) ==> call_requires(make_val, (&key,)),
        ensures
            final(self).wf(),
            final(self).hasher_spec() == old(self).hasher_spec(),
            insert_outcome(
                old(self)@,
                final(self)@,
                hash,
                key,
                sure_values(make_val, key),
                cloned_results(),
                Ok::<V, Infallible>(res),
            ),
    {
        let res = self.hashed_map_insert_with(hash, key, make_val, clone_value::<K, V>);
        proof {
            lemma_insert_outcome_weaken(
                old(self)@,
                final(self)@,
                hash,
                key,
                sure_values(make_val, key),
                projected_results(clone_value::<K, V>),
                sure_values(make_val, key),
                cloned_results(),
                Ok::<V, Infallible>(res),
            );
        }
        res
    }

    /// Makes and stores the value for `key` unless a pair is stored already,
    /// and hands back a clone of the value that is stored then.
    ///
    /// The key is hashed once, with the map's hash builder, and
    /// `insert_outcome` holds for that hash.
    pub fn insert_with_cloned<M>(&mut self, key: K, make_val: M) -> (res: V) where
        M: FnOnce(&K) -> V,

        requires
            old(self).wf(),
            obeys_equivalence::<K, K>(),
            call_requires(make_val, (&key,)),
        ensures
            final(self).wf(),
            final(self).hasher_spec() == old(self).hasher_spec(),
            exists|hash: u64|
                {
                    &&& #[trigger] hashes_to(old(self).hasher_spec(), &key, hash)
                    &&& insert_outcome(
                        old(self)@,
                        final(self)@,
                        hash,
                        key,
                        sure_values(make_val, key),
                        cloned_results(),
                        Ok::<V, Infallible>(res),
                    )
                },
    {
        let hash = self.hash_key(&key);
        self.hashed_insert_with_cloned(hash, key, make_val)
    }

    /// `try_insert_with_cloned` for a request whose hash is already known.
    pub fn hashed_try_insert_with_cloned<M, E>(&mut self, hash: u64, key: K, make_val: M) -> (res:
        Result<V, E>) where M: FnOnce(&K) -> Result<V, E>
        requires
            old(self).wf(),
            obeys_equivalence::<K, K>(),
            !occupied(old(self)@, hash, &key) ==> call_requires(make_val, (&key,)),
        ensures
            final(self).wf(),
            final(self).hasher_spec() == old(self).hasher_spec(),
            insert_outcome(
                old(self)@,
                final(self)@,
                hash,
                key,
                fallible_values(make_val, key),
                cloned_results(),
                res,
            ),
    {
        let res = self.hashed_map_try_insert_with(hash, key, make_val, clone_value::<K, V>);
        proof {
            lemma_insert_outcome_weaken(
                old(self)@,
                final(self)@,
                hash,
                key,
                fallible_values(make_val, key),
                projected_results(clone_value::<K, V>),
                fallible_values(make_val, key),
                cloned_results(),
                res,
            );
        }
        res
    }

    /// Makes and stores the value for `key` unless a pair is stored already,
    /// and hands back a clone of the value that is stored then; hands on the
    /// error of `make_val` and stores nothing where it fails.
    ///
    /// The key is hashed once, with the map's hash builder, and
    /// `insert_outcome` holds for that hash.
    pub fn try_insert_with_cloned<M, E>(&mut self, key: K, make_val: M) -> (res: Result<V, E>) where
        M: FnOnce(&K) -> Result<V, E>,

        requires
            old(self).wf(),
            obeys_equivalence::<K, K>(),
            call_requires(make_val, (&key,)),
        ensures
            final(self).wf(),
            final(self).hasher_spec() == old(self).hasher_spec(),
            exists|hash: u64|
                {
                    &&& #[trigger] hashes_to(old(self).hasher_spec(), &key, hash)
                    &&& insert_outcome(
                        old(self)@,
                        final(self)@,
                        hash,
                        key,
                        fallible_values(make_val, key),
                        cloned_results(),
                        res,
                    )
                },
    {
        let hash = self.hash_key(&key);
        self.hashed_try_insert_with_cloned(hash, key, make_val)
    }

    /// `get_cloned` for a request whose hash is already known.
    pub fn hashed_get_cloned<Q>(&self, hash: u64, key: &Q) -> (res: Option<V>) where
        Q: Equivalent<K> + ?Sized,

        requires
            self.wf(),
            obeys_equivalence::<Q, K>(),
        ensures
            lookup_outcome(self@, hash, key, cloned_results(), res),
    {
        let res = self.hashed_map_get(hash, key, clone_value::<K, V>);
        proof {
            lemma_lookup_outcome_weaken(
                self@,
                hash,
                key,
                projected_results(clone_value::<K, V>),
                cloned_results(),
                res,
            );
        }
        res
    }

    /// A clone of the value stored for `key`.
    ///
    /// The key is hashed once, with the map's hash builder, and
    /// `lookup_outcome` holds for that hash.
    pub fn get_cloned<Q>(&self, key: &Q) -> (res: Option<V>) where
        Q: Hash + Equivalent<K> + ?Sized,

        requires
            self.wf(),
            obeys_equivalence::<Q, K>(),
        ensures
            exists|hash: u64|
                {
                    &&& #[trigger] hashes_to(self.hasher_spec(), key, hash)
                    &&& lookup_outcome(self@, hash, key, cloned_results(), res)
                },
    {
        let hash = self.hash_key(key);
        self.hashed_get_cloned(hash, key)
    }
}

impl<K, V, S> OnceMap<K, V, S> where K: Eq + Hash, S: BuildHasher, V: StableDeref {
    /// Makes and stores the value for `key` unless a pair is stored already,
    /// and hands back the number of the slot that holds the pair then.
    fn hashed_try_store_with<M, E>(&mut self, hash: u64, key: K, make_val: M) -> (res: Result<
        usize,
        E,
    >) where M: FnOnce(&K) -> Result<V, E>
        requires
            old(self).wf(),
            obeys_equivalence::<K, K>(),
            !occupied(old(self)@, hash, &key) ==> call_requires(make_val, (&key,)),
        ensures
            final(self).wf(),
            final(self).hasher_spec() == old(self).hasher_spec(),
            res is Ok ==> res->Ok_0 < final(self)@.len(),
            store_outcome(
                old(self)@,
                final(self)@,
                hash,
                key,
                fallible_values(make_val, key),
                res,
            ),
    {
        let ghost make = fallible_values(make_val, key);
        match self.table.get_raw_entry_mut(hash, &key) {
            RawEntryMut::Occupied(number) => {
                assert(slot_matches(self@[number as int], hash, &key));
                Ok(number)
            },
            RawEntryMut::Vacant => {
                match make_val(&key) {
                    Ok(value) => {
                        let number = self.table.len();
                        assert(make(Ok(value)));
                        self.table.insert_hashed_nocheck(hash, key, value);
                        Ok(number)
                    },
                    Err(e) => {
                        assert(make(Err(e)));
                        Err(e)
                    },
                }
            },
        }
    }

    /// `try_insert_with` for a request whose hash is already known.
    pub fn hashed_try_insert_with<M, E>(&mut self, hash: u64, key: K, make_val: M) -> (res: Result<
        &V::Target,
        E,
    >) where M: FnOnce(&K) -> Result<V, E>
        requires
            old(self).wf(),
            obeys_equivalence::<K, K>(),
            !occupied(old(self)@, hash, &key) ==> call_requires(make_val, (&key,)),
        ensures
            final(self).wf(),
            final(self).hasher_spec() == old(self).hasher_spec(),
            insert_outcome(
                old(self)@,
                final(self)@,
                hash,
                key,
                fallible_values(make_val, key),
                target_results(),
                res,
            ),
    {
        let ghost make = fallible_values(make_val, key);
        let ghost project = target_results::<K, V>();
        match self.hashed_try_store_with(hash, key, make_val) {
            Ok(number) => {
                let slot = self.table.slot(number);
                let target = slot.value.deref();
                proof {
                    let stored = self@[number as int];
                    assert(project(stored.key, stored.value, target));
                    if !occupied(old(self)@, hash, &key) {
                        assert(made_then_projected(make, project, key)(
                            Ok((stored.value, target)),
                        ));
                    }
                }
                Ok(target)
            },
            Err(e) => {
                assert(made_then_projected(make, project, key)(Err(e)));
                Err(e)
            },
        }
    }

    /// Makes and stores the value for `key` unless a pair is stored already,
    /// and hands back what the value that is stored then dereferences to;
    /// hands on the error of `make_val` and stores nothing where it fails.
    ///
    /// The key is hashed once, with the map's hash builder, and
    /// `insert_outcome` holds for that hash.
    pub fn try_insert_with<M, E>(&mut self, key: K, make_val: M) -> (res: Result<&V::Target, E>) where
        M: FnOnce(&K) -> Result<V, E>,

        requires
            old(self).wf(),
            obeys_equivalence::<K, K>(),
            call_requires(make_val, (&key,)),
        ensures
            final(self).wf(),
            final(self).hasher_spec() == old(self).hasher_spec(),
            exists|hash: u64|
                {
                    &&& #[trigger] hashes_to(old(self).hasher_spec(), &key, hash)
                    &&& insert_outcome(
                        old(self)@,
                        final(self)@,
                        hash,
                        key,
                        fallible_values(make_val, key),
                        target_results(),
                        res,
                    )
                },
    {
        let hash = self.hash_key(&key);
        self.hashed_try_insert_with(hash, key, make_val)
    }

    /// `insert_with` for a request whose hash is already known.
    pub fn hashed_insert_with<M>(&mut self, hash: u64, key: K, make_val: M) -> (res: &V::Target) where
        M: FnOnce(&K) -> V,

        requires
            old(self).wf(),
            obeys_equivalence::<K, K>(),
            !occupied(old(self)@, hash, &key) ==> call_requires(make_val, (&key,)),
        ensures
            final(self).wf(),
            final(self).hasher_spec() == old(self).hasher_spec(),
            insert_outcome(
                old(self)@,
                final(self)@,
                hash,
                key,
                sure_values(make_val, key),
                target_results(),
                Ok::<&V::Target, Infallible>(res),
            ),
    {
        let fallible = |k: &K| -> (out: Result<V, Infallible>)
            requires
                call_requires(make_val, (k,)),
            ensures
                out is Ok && call_ensures(make_val, (k,), out->Ok_0),
            { Ok(make_val(k)) };
        let ghost make = sure_values(make_val, key);
        let ghost project = target_results::<K, V>();
        let stored = self.hashed_try_store_with(hash, key, fallible);
        proof {
            if stored is Err {
                assert(fallible_values(fallible, key)(Err(stored->Err_0)));
            }
        }
        let number = unwrap_infallible(stored);
        let slot = self.table.slot(number);
        let target = slot.value.deref();
        proof {
            let stored = self@[number as int];
            assert(project(stored.key, stored.value, target));
            if !occupied(old(self)@, hash, &key) {
                assert(fallible_values(fallible, key)(Ok(stored.value)));
                assert(make(Ok(stored.value)));
                assert(made_then_projected(make, project, key)(Ok((stored.value, target))));
            }
        }
        target
    }

    /// `try_insert_with` for a factory that cannot fail.
    pub fn insert_with<M>(&mut self, key: K, make_val: M) -> (res: &V::Target) where
        M: FnOnce(&K) -> V,

        requires
            old(self).wf(),
            obeys_equivalence::<K, K>(),
            call_requires(make_val, (&key,)),
        ensures
            final(self).wf(),
            final(self).hasher_spec() == old(self).hasher_spec(),
            exists|hash: u64|
                {
                    &&& #[trigger] hashes_to(old(self).hasher_spec(), &key, hash)
                    &&& insert_outcome(
                        old(self)@,
                        final(self)@,
                        hash,
                        key,
                        sure_values(make_val, key),
                        target_results(),
                        Ok::<&V::Target, Infallible>(res),
                    )
                },
    {
        let hash = self.hash_key(&key);
        self.hashed_insert_with(hash, key, make_val)
    }

    /// `get` for a request whose hash is already known.
    pub fn hashed_get<Q>(&self, hash: u64, key: &Q) -> (res: Option<&V::Target>) where
        Q: Equivalent<K> + ?Sized,

        requires
            self.wf(),
            obeys_equivalence::<Q, K>(),
        ensures
            lookup_outcome(self@, hash, key, target_results(), res),
    {
        match self.table.get_raw_entry_mut(hash, key) {
            RawEntryMut::Occupied(number) => {
                let slot = self.table.slot(number);
                let target = slot.value.deref();
                proof {
                    let found = self@[number as int];
                    assert(slot_matches(found, hash, key));
                    assert(target_results::<K, V>()(found.key, found.value, target));
                }
                Some(target)
            },
            RawEntryMut::Vacant => None,
        }
    }

    /// What the value stored for `key` dereferences to.
    ///
    /// The key is hashed once, with the map's hash builder, and
    /// `lookup_outcome` holds for that hash.
    pub fn get<Q>(&self, key: &Q) -> (res: Option<&V::Target>) where
        Q: Hash + Equivalent<K> + ?Sized,

        requires
            self.wf(),
            obeys_equivalence::<Q, K>(),
        ensures
            exists|hash: u64|
                {
                    &&& #[trigger] hashes_to(self.hasher_spec(), key, hash)
                    &&& lookup_outcome(self@, hash, key, target_results(), res)
                },
    {
        let hash = self.hash_key(key);
        self.hashed_get(hash, key)
    }
}

} // verus!
