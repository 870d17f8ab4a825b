//! The hash table of slot numbers.
//!
//! The table is `hashbrown::HashTable<usize>`. Nothing in this file is proved:
//! each function states what the `hashbrown` source shows of the method it
//! calls, over the multiset of `(hash, number)` pairs that the table holds.
use vstd::multiset::Multiset;
use vstd::prelude::*;

verus! {

/// A `hashbrown::HashTable<usize>`: slot numbers, each placed under the hash
/// it was inserted with.
///
/// `hashbrown` gives the table an allocator parameter that is bound by a
/// trait of its own which cannot be named from outside, so the table is held
/// in a field and this struct is opaque to the verifier.
#[verifier::external_body]
#[derive(Debug)]
pub struct IndexTable {
    inner: hashbrown::HashTable<usize>,
}

/// What a table holds: each stored number together with the hash under which
/// it was inserted, with multiplicity.
pub uninterp spec fn table_entries(table: IndexTable) -> Multiset<(u64, usize)>;

/// `hasher` may be called on every stored number and gives back the hash the
/// number was inserted with.
pub open spec fn rehashes<H: Fn(&usize) -> u64>(
    entries: Multiset<(u64, usize)>,
    hasher: H,
) -> bool {
    forall|e: (u64, usize)| #[trigger]
        entries.count(e) > 0 ==> {
            &&& call_requires(hasher, (&e.1,))
            &&& forall|h: u64| call_ensures(hasher, (&e.1,), h) ==> h == e.0
        }
}

/// `eq` may be called on every stored number.
pub open spec fn comparable<F: Fn(&usize) -> bool>(
    entries: Multiset<(u64, usize)>,
    eq: F,
) -> bool {
    forall|e: (u64, usize)| #[trigger] entries.count(e) > 0 ==> call_requires(eq, (&e.1,))
}

/// `eq` answered no for every number stored under `hash`.
pub open spec fn all_rejected<F: Fn(&usize) -> bool>(
    entries: Multiset<(u64, usize)>,
    hash: u64,
    eq: F,
) -> bool {
    forall|e: (u64, usize)| #[trigger]
        entries.count(e) > 0 && e.0 == hash ==> call_ensures(eq, (&e.1,), false)
}

/// `HashTable::new`: the new table holds nothing.
#[verifier::external_body]
pub(crate) fn table_new() -> (table: IndexTable)
    ensures
        table_entries(table) == Multiset::<(u64, usize)>::empty(),
{
    IndexTable { inner: hashbrown::HashTable::new() }
}

/// `HashTable::find`: the number that comes back is stored and `eq` answered
/// yes for it; when none comes back, `eq` answered no for every number stored
/// under `hash`. The table calls `eq` on stored numbers only.
#[verifier::external_body]
pub(crate) fn table_find<F: Fn(&usize) -> bool>(
    table: &IndexTable,
    hash: u64,
    eq: F,
) -> (found: Option<usize>)
    requires
        comparable(table_entries(*table), eq),
    ensures
        match found {
            Some(number) => {
                &&& exists|h: u64| table_entries(*table).count((h, number)) > 0
                &&& call_ensures(eq, (&number,), true)
            },
            None => all_rejected(table_entries(*table), hash, eq),
        },
{
    table.inner.find(hash, eq).copied()
}

/// `HashTable::insert_unique`: the pair `(hash, number)` is added and nothing
/// else changes. When the table grows it asks `hasher` for the hash of the
/// numbers it already holds, which must be the hash each was inserted with.
/// Like `Vec::push`, it stops the program when memory runs out.
#[verifier::external_body]
pub(crate) fn table_insert_unique<H: Fn(&usize) -> u64>(
    table: &mut IndexTable,
    hash: u64,
    number: usize,
    hasher: H,
)
    requires
        rehashes(table_entries(*old(table)), hasher),
    ensures
        table_entries(*final(table)) == table_entries(*old(table)).insert((hash, number)),
{
    table.inner.insert_unique(hash, number, hasher);
}

/// `HashTable::find_entry` followed by `OccupiedEntry::remove`: one stored
/// number for which `eq` answered yes leaves the table and is handed back;
/// when none comes back, the table is unchanged and `eq` answered no for every
/// number stored under `hash`.
#[verifier::external_body]
pub(crate) fn table_remove<F: Fn(&usize) -> bool>(
    table: &mut IndexTable,
    hash: u64,
    eq: F,
) -> (removed: Option<usize>)
    requires
        comparable(table_entries(*old(table)), eq),
    ensures
        match removed {
            Some(number) => {
                &&& call_ensures(eq, (&number,), true)
                &&& exists|h: u64|
                    {
                        &&& table_entries(*old(table)).count((h, number)) > 0
                        &&& table_entries(*final(table)) == table_entries(*old(table)).remove(
                            (h, number),
                        )
                    }
            },
            None => {
                &&& table_entries(*final(table)) == table_entries(*old(table))
                &&& all_rejected(table_entries(*old(table)), hash, eq)
            },
        },
{
    match table.inner.find_entry(hash, eq) {
        Ok(entry) => Some(entry.remove().0),
        Err(_) => None,
    }
}

/// `HashTable::find_mut`: a reference to one stored number for which `eq`
/// answered yes. What is written through it takes the number's place, under
/// the hash the number was inserted with. When none comes back, the table is
/// unchanged and `eq` answered no for every number stored under `hash`.
#[verifier::external_body]
pub(crate) fn table_find_mut<F: Fn(&usize) -> bool>(
    table: &mut IndexTable,
    hash: u64,
    eq: F,
) -> (found: Option<&mut usize>)
    requires
        comparable(table_entries(*old(table)), eq),
    ensures
        match found {
            Some(number) => {
                &&& call_ensures(eq, (&*number,), true)
                &&& exists|h: u64|
                    {
                        &&& table_entries(*old(table)).count((h, *number)) > 0
                        &&& table_entries(*final(table)) == table_entries(*old(table)).remove(
                            (h, *number),
                        ).insert((h, *final(number)))
                    }
            },
            None => {
                &&& table_entries(*final(table)) == table_entries(*old(table))
                &&& all_rejected(table_entries(*old(table)), hash, eq)
            },
        },
{
    table.inner.find_mut(hash, eq)
}

/// `HashTable::clear`: the table holds nothing afterwards.
#[verifier::external_body]
pub(crate) fn table_clear(table: &mut IndexTable)
    ensures
        table_entries(*final(table)) == Multiset::<(u64, usize)>::empty(),
{
    table.inner.clear();
}

} // verus!
