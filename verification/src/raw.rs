//! The slot table: pairs found by a hash computed beforehand.
//!
//! The pairs live in a vector of slots. A hash table of slot numbers finds a
//! slot again from the hash it was inserted with and a comparison of the
//! request with the slot's key. No function here hashes anything: every probe
//! and every insertion takes the hash from its caller.
use crate::equivalent::Equivalent;
use crate::index_table::{
    table_clear, table_entries, table_find, table_find_mut, table_insert_unique, table_new,
    table_remove, IndexTable,
};
use vstd::multiset::Multiset;
use vstd::prelude::*;

verus! {

/// A stored pair, with the hash it was inserted with.
#[derive(Debug)]
pub struct Slot<K, V> {
    pub hash: u64,
    pub key: K,
    pub value: V,
}

/// The slot is one that a probe with `hash` and `query` looks for: it was
/// inserted with that hash, and the query denotes its key.
pub open spec fn slot_matches<Q: Equivalent<K> + ?Sized, K, V>(
    slot: Slot<K, V>,
    hash: u64,
    query: &Q,
) -> bool {
    slot.hash == hash && query.equivalent_spec(&slot.key)
}

/// Some slot is one that a probe with `hash` and `query` looks for.
pub open spec fn occupied<Q: Equivalent<K> + ?Sized, K, V>(
    slots: Seq<Slot<K, V>>,
    hash: u64,
    query: &Q,
) -> bool {
    exists|i: int| 0 <= i < slots.len() && slot_matches(#[trigger] slots[i], hash, query)
}

/// `Q::equivalent` computes the relation that `Q::equivalent_spec` states.
pub open spec fn obeys_equivalence<Q: Equivalent<K> + ?Sized, K>() -> bool {
    Q::obeys_equivalent_spec()
}

/// The slots that are left when slot `i` is taken out: the last slot moves
/// into its place.
pub open spec fn swap_removed<T>(slots: Seq<T>, i: int) -> Seq<T> {
    slots.update(i, slots.last()).drop_last()
}

/// How a lookup with `hash` for `key` ends: with a result that `hit` accepts
/// for the pair of a slot that is the one looked for, or with `None` where
/// there is no such slot.
pub open spec fn lookup_outcome<Q: Equivalent<K> + ?Sized, K, V, R>(
    slots: Seq<Slot<K, V>>,
    hash: u64,
    key: &Q,
    hit: spec_fn(K, V, R) -> bool,
    res: Option<R>,
) -> bool {
    match res {
        Some(r) => exists|i: int|
            0 <= i < slots.len() && slot_matches(#[trigger] slots[i], hash, key) && hit(
                slots[i].key,
                slots[i].value,
                r,
            ),
        None => !occupied(slots, hash, key),
    }
}

/// How a removal with `hash` for `key` ends: a slot that is the one looked
/// for is taken out and its pair handed back, or there is no such slot and
/// nothing changes.
pub open spec fn removal_outcome<Q: Equivalent<K> + ?Sized, K, V>(
    before: Seq<Slot<K, V>>,
    after: Seq<Slot<K, V>>,
    hash: u64,
    key: &Q,
    res: Option<(K, V)>,
) -> bool {
    match res {
        Some((k, v)) => exists|i: int|
            0 <= i < before.len() && slot_matches(#[trigger] before[i], hash, key) && before[i].key
                == k && before[i].value == v && after == swap_removed(before, i),
        None => !occupied(before, hash, key) && after == before,
    }
}

/// The pair itself, by reference.
pub open spec fn same_pair<'a, K, V>() -> spec_fn(K, V, (&'a K, &'a V)) -> bool {
    |k: K, v: V, pair: (&K, &V)| *pair.0 == k && *pair.1 == v
}

/// A lookup that ends in one way also ends in every way that accepts at
/// least the same results.
pub proof fn lemma_lookup_outcome_weaken<Q: Equivalent<K> + ?Sized, K, V, R>(
    slots: Seq<Slot<K, V>>,
    hash: u64,
    key: &Q,
    hit: spec_fn(K, V, R) -> bool,
    wider_hit: spec_fn(K, V, R) -> bool,
    res: Option<R>,
)
    requires
        lookup_outcome(slots, hash, key, hit, res),
        forall|k: K, v: V, r: R| #[trigger] hit(k, v, r) ==> wider_hit(k, v, r),
    ensures
        lookup_outcome(slots, hash, key, wider_hit, res),
{
    if let Some(r) = res {
        let i = choose|i: int|
            0 <= i < slots.len() && slot_matches(#[trigger] slots[i], hash, key) && hit(
                slots[i].key,
                slots[i].value,
                r,
            );
        assert(wider_hit(slots[i].key, slots[i].value, r));
    }
}

/// What a probe for insertion found.
#[derive(Debug)]
pub enum RawEntryMut {
    /// The slot with this number is the one looked for.
    Occupied(usize),
    /// No slot is the one looked for.
    Vacant,
}

/// The table of numbers holds each slot's number exactly once, under the
/// slot's hash, and nothing else.
spec fn coherent<K, V>(slots: Seq<Slot<K, V>>, entries: Multiset<(u64, usize)>) -> bool {
    &&& forall|i: int|
        0 <= i < slots.len() ==> entries.count((#[trigger] slots[i].hash, i as usize)) == 1
    &&& forall|e: (u64, usize)| #[trigger]
        entries.count(e) > 0 ==> e.1 < slots.len() && slots[e.1 as int].hash == e.0
}

fn find_number<Q: Equivalent<K> + ?Sized, K, V>(
    slots: &Vec<Slot<K, V>>,
    index: &IndexTable,
    hash: u64,
    key: &Q,
) -> (found: Option<usize>)
    requires
        obeys_equivalence::<Q, K>(),
        coherent(slots@, table_entries(*index)),
    ensures
        match found {
            Some(number) => number < slots@.len() && slot_matches(slots@[number as int], hash, key),
            None => !occupied(slots@, hash, key),
        },
{
    let eq = |number: &usize| -> (same: bool)
        requires
            *number < slots@.len(),
        ensures
            same == slot_matches(slots@[*number as int], hash, key),
        {
            let slot = &slots[*number];
            slot.hash == hash && key.equivalent(&slot.key)
        };
    let found = table_find(index, hash, eq);
    proof {
        assert(slots@.len() == slots.len());
        if found is None {
            assert forall|i: int| 0 <= i < slots@.len() implies !slot_matches(
                #[trigger] slots@[i],
                hash,
                key,
            ) by {
                let e = (slots@[i].hash, i as usize);
                assert(table_entries(*index).count(e) > 0);
                assert(call_ensures(eq, (&e.1,), false) || e.0 != hash);
            }
        }
    }
    found
}

fn push_slot<K, V>(slots: &mut Vec<Slot<K, V>>, index: &mut IndexTable, slot: Slot<K, V>)
    requires
        coherent(old(slots)@, table_entries(*old(index))),
    ensures
        coherent(final(slots)@, table_entries(*final(index))),
        final(slots)@ == old(slots)@.push(slot),
{
    let hash = slot.hash;
    let number = slots.len();
    // Room for the slot is made first, so that the number is in the table
    // only when its slot is sure to follow.
    slots.reserve(1);
    let stored: &Vec<Slot<K, V>> = &*slots;
    let hasher = |number: &usize| -> (hash: u64)
        requires
            *number < stored@.len(),
        ensures
            hash == stored@[*number as int].hash,
        { stored[*number].hash };
    table_insert_unique(index, hash, number, hasher);
    slots.push(slot);
    proof {
        let before = table_entries(*old(index));
        let after = table_entries(*final(index));
        assert(before.count((hash, number)) == 0);
        assert forall|i: int| 0 <= i < slots@.len() implies after.count(
            (#[trigger] slots@[i].hash, i as usize),
        ) == 1 by {
            if i < number {
                assert(slots@[i] == old(slots)@[i]);
            }
        }
    }
}

fn take_slot<K, V>(slots: &mut Vec<Slot<K, V>>, index: &mut IndexTable, number: usize) -> (slot:
    Slot<K, V>)
    requires
        number < old(slots)@.len(),
        coherent(old(slots)@, table_entries(*old(index))),
    ensures
        coherent(final(slots)@, table_entries(*final(index))),
        slot == old(slots)@[number as int],
        final(slots)@ == swap_removed(old(slots)@, number as int),
{
    let ghost before = table_entries(*index);
    let last = slots.len() - 1;
    let hash = slots[number].hash;
    let moved_hash = slots[last].hash;
    let is_taken = |stored: &usize| -> (same: bool)
        ensures
            same == (*stored == number),
        { *stored == number };
    let removed = table_remove(index, hash, is_taken);
    let ghost between = table_entries(*index);
    proof {
        assert(before.count((hash, number)) == 1);
        if removed is None {
            assert(call_ensures(is_taken, (&number,), false));
        }
        assert(removed == Some(number));
        let h = choose|h: u64| before.count((h, number)) > 0 && between == before.remove((h, number));
        assert(h == hash);
    }
    if number != last {
        let is_moved = |stored: &usize| -> (same: bool)
            ensures
                same == (*stored == last),
            { *stored == last };
        proof {
            assert(between.count((moved_hash, last)) == 1);
        }
        match table_find_mut(index, moved_hash, is_moved) {
            Some(stored) => {
                *stored = number;
            },
            None => {
                proof {
                    assert(call_ensures(is_moved, (&last,), false));
                }
            },
        }
        proof {
            let renumbered = table_entries(*index);
            let h = choose|h: u64|
                between.count((h, last)) > 0 && renumbered == between.remove((h, last)).insert(
                    (h, number),
                );
            assert(h == moved_hash);
        }
    }
    let slot = slots.swap_remove(number);
    proof {
        let after = table_entries(*final(index));
        let left = final(slots)@;
        assert(left.len() == last);
        assert forall|i: int| 0 <= i < left.len() implies after.count(
            (#[trigger] left[i].hash, i as usize),
        ) == 1 by {
            if i == number {
                assert(left[i] == old(slots)@[last as int]);
            } else {
                assert(left[i] == old(slots)@[i]);
                assert(before.count((old(slots)@[i].hash, i as usize)) == 1);
            }
        }
        assert forall|e: (u64, usize)| #[trigger] after.count(e) > 0 implies e.1 < left.len()
            && left[e.1 as int].hash == e.0 by {
            if e != (moved_hash, number) {
                assert(between.count(e) > 0);
                assert(before.count(e) > 0);
            }
        }
    }
    slot
}

fn clear_slots<K, V>(slots: &mut Vec<Slot<K, V>>, index: &mut IndexTable)
    ensures
        coherent(final(slots)@, table_entries(*final(index))),
        final(slots)@ == Seq::<Slot<K, V>>::empty(),
{
    table_clear(index);
    slots.clear();
}

/// The slots of a map and the hash table of numbers that finds them.
///
/// Its view is the sequence of slots. The order is that of insertion, but
/// for removals: the last slot takes the place of a removed one.
#[derive(Debug)]
pub struct RawTable<K, V> {
    slots: Vec<Slot<K, V>>,
    index: IndexTable,
}

impl<K, V> View for RawTable<K, V> {
    type V = Seq<Slot<K, V>>;

    closed spec fn view(&self) -> Seq<Slot<K, V>> {
        self.slots@
    }
}

impl<K, V> RawTable<K, V> {
    /// The table of numbers agrees with the slots. Every constructor
    /// establishes this and every method keeps it.
    pub closed spec fn wf(&self) -> bool {
        coherent(self.slots@, table_entries(self.index))
    }

    /// A table without slots.
    pub fn new() -> (table: Self)
        ensures
            table.wf(),
            table@ == Seq::<Slot<K, V>>::empty(),
    {
        RawTable { slots: Vec::new(), index: table_new() }
    }

    /// The number of slots.
    pub fn len(&self) -> (len: usize)
        ensures
            len == self@.len(),
    {
        self.slots.len()
    }

    /// Whether the table has no slot.
    pub fn is_empty(&self) -> (empty: bool)
        ensures
            empty == (self@.len() == 0),
    {
        self.slots.len() == 0
    }

    /// Removes every slot.
    pub fn clear(&mut self)
        ensures
            final(self).wf(),
            final(self)@ == Seq::<Slot<K, V>>::empty(),
    {
        clear_slots(&mut self.slots, &mut self.index);
    }

    /// The slot with the given number.
    pub fn slot(&self, number: usize) -> (slot: &Slot<K, V>)
        requires
            number < self@.len(),
        ensures
            *slot == self@[number as int],
    {
        &self.slots[number]
    }

    /// Probes for insertion: the number of a slot that was inserted with
    /// `hash` and whose key `key` denotes, or `Vacant` when there is none.
    pub fn get_raw_entry_mut<Q: Equivalent<K> + ?Sized>(&self, hash: u64, key: &Q) -> (entry:
        RawEntryMut)
        requires
            self.wf(),
            obeys_equivalence::<Q, K>(),
        ensures
            match entry {
                RawEntryMut::Occupied(number) => number < self@.len() && slot_matches(
                    self@[number as int],
                    hash,
                    key,
                ),
                RawEntryMut::Vacant => !occupied(self@, hash, key),
            },
    {
        match find_number(&self.slots, &self.index, hash, key) {
            Some(number) => RawEntryMut::Occupied(number),
            None => RawEntryMut::Vacant,
        }
    }

    /// Looks a pair up: the key and value of a slot that was inserted with
    /// `hash` and whose key `key` denotes, or `None` when there is none.
    pub fn get_raw_entry<Q: Equivalent<K> + ?Sized>(&self, hash: u64, key: &Q) -> (pair: Option<
        (&K, &V),
    >)
        requires
            self.wf(),
            obeys_equivalence::<Q, K>(),
        ensures
            lookup_outcome(self@, hash, key, same_pair(), pair),
    {
        match self.get_raw_entry_mut(hash, key) {
            RawEntryMut::Occupied(number) => {
                let slot = &self.slots[number];
                let pair = (&slot.key, &slot.value);
                proof {
                    let found = self@[number as int];
                    assert(slot_matches(found, hash, key));
                    assert(same_pair::<K, V>()(found.key, found.value, pair));
                }
                Some(pair)
            },
            RawEntryMut::Vacant => None,
        }
    }

    /// Adds a slot for the pair, inserted with `hash`. No probe is made: it
    /// is for the caller to have found the place vacant.
    pub fn insert_hashed_nocheck(&mut self, hash: u64, key: K, value: V)
        requires
            old(self).wf(),
        ensures
            final(self).wf(),
            final(self)@ == old(self)@.push(Slot { hash, key, value }),
    {
        push_slot(&mut self.slots, &mut self.index, Slot { hash, key, value });
    }

    /// Takes out a slot that was inserted with `hash` and whose key `key`
    /// denotes, and hands its pair back; the last slot moves into its place.
    /// `None`, and nothing changes, when there is no such slot.
    pub fn remove_raw_entry<Q: Equivalent<K> + ?Sized>(&mut self, hash: u64, key: &Q) -> (pair:
        Option<(K, V)>)
        requires
            old(self).wf(),
            obeys_equivalence::<Q, K>(),
        ensures
            final(self).wf(),
            removal_outcome(old(self)@, final(self)@, hash, key, pair),
    {
        match find_number(&self.slots, &self.index, hash, key) {
            Some(number) => {
                let slot = take_slot(&mut self.slots, &mut self.index, number);
                assert(slot_matches(old(self)@[number as int], hash, key));
                Some((slot.key, slot.value))
            },
            None => None,
        }
    }
}

} // verus!
