//! Comparing a borrowed query with an owned key.
//!
//! A lookup never has to build an owned key: the query is compared with the
//! stored keys directly. Only when a slot is created is the query turned into
//! the key to store.
use vstd::pervasive::cloned;
use vstd::prelude::*;
use vstd::std_specs::cmp::PartialEqSpec;

verus! {

/// A query that can be compared with keys of type `K`.
///
/// `equivalent_spec` says which keys the query denotes. An impl whose
/// `obeys_equivalent_spec` holds promises that `equivalent` computes exactly
/// that relation; the map's contracts ask for such impls. An impl that states
/// neither promises nothing.
pub trait Equivalent<K: ?Sized> {
    /// Whether `equivalent` computes `equivalent_spec`.
    open spec fn obeys_equivalent_spec() -> bool {
        false
    }

    /// The query and the key denote the same identity.
    open spec fn equivalent_spec(&self, key: &K) -> bool {
        false
    }

    /// Compares the query with a key.
    fn equivalent(&self, key: &K) -> (same: bool)
        ensures
            Self::obeys_equivalent_spec() ==> same == self.equivalent_spec(key),
    ;
}

/// A key is a query for keys of its own type, compared with `==`.
impl<K: PartialEq + ?Sized> Equivalent<K> for K {
    open spec fn obeys_equivalent_spec() -> bool {
        K::obeys_eq_spec()
    }

    open spec fn equivalent_spec(&self, key: &K) -> bool {
        self.eq_spec(key)
    }

    fn equivalent(&self, key: &K) -> (same: bool) {
        self == key
    }
}

/// `str::eq` of the standard library: two string slices are equal when they
/// hold the same characters.
#[verifier::external_body]
fn same_text(left: &str, right: &str) -> (same: bool)
    ensures
        same == (left@ == right@),
{
    left == right
}

/// A string slice is a query for owned strings with the same characters.
impl Equivalent<String> for str {
    open spec fn obeys_equivalent_spec() -> bool {
        true
    }

    open spec fn equivalent_spec(&self, key: &String) -> bool {
        self@ == key@
    }

    fn equivalent(&self, key: &String) -> (same: bool) {
        same_text(self, key.as_str())
    }
}

/// A string slice is a query for borrowed strings with the same characters.
impl<'a> Equivalent<&'a str> for str {
    open spec fn obeys_equivalent_spec() -> bool {
        true
    }

    open spec fn equivalent_spec(&self, key: &&'a str) -> bool {
        self@ == (*key)@
    }

    fn equivalent(&self, key: &&'a str) -> (same: bool) {
        same_text(self, *key)
    }
}

/// A slice is a query for vectors of the same length whose items are equal
/// to its own, one by one.
impl<T: PartialEq> Equivalent<Vec<T>> for [T] {
    open spec fn obeys_equivalent_spec() -> bool {
        T::obeys_eq_spec()
    }

    open spec fn equivalent_spec(&self, key: &Vec<T>) -> bool {
        &&& self@.len() == key@.len()
        &&& forall|i: int| 0 <= i < self@.len() ==> (#[trigger] self@[i]).eq_spec(&key@[i])
    }

    fn equivalent(&self, key: &Vec<T>) -> (same: bool) {
        if self.len() != key.len() {
            return false;
        }
        let mut at: usize = 0;
        while at < self.len()
            invariant
                self@.len() == key@.len(),
                at <= self@.len(),
                T::obeys_eq_spec() ==> forall|i: int|
                    0 <= i < at ==> (#[trigger] self@[i]).eq_spec(&key@[i]),
            decreases self@.len() - at,
        {
            if self[at] != key[at] {
                assert(T::obeys_eq_spec() ==> !self@[at as int].eq_spec(&key@[at as int]));
                return false;
            }
            at += 1;
        }
        true
    }
}

/// A query that can be turned into the key it denotes.
///
/// The conversion is made on the insertion path only, for the key that is
/// actually stored.
pub trait ToOwnedEquivalent<K>: Equivalent<K> {
    /// Whether the key that `to_owned_equivalent` builds is one the query
    /// denotes.
    open spec fn obeys_to_owned_spec() -> bool {
        false
    }

    /// Builds the owned key for this query.
    fn to_owned_equivalent(&self) -> (key: K)
        ensures
            Self::obeys_to_owned_spec() ==> self.equivalent_spec(&key),
    ;
}

/// A key is turned into an owned key by cloning it.
impl<K: Clone + PartialEq> ToOwnedEquivalent<K> for K {
    open spec fn obeys_to_owned_spec() -> bool {
        forall|key: K, copy: K| #[trigger] cloned(key, copy) ==> key.eq_spec(&copy)
    }

    fn to_owned_equivalent(&self) -> (key: K) {
        let key = self.clone();
        assert(cloned(*self, key));
        key
    }
}

/// A string slice is turned into the owned string with the same characters.
impl ToOwnedEquivalent<String> for str {
    open spec fn obeys_to_owned_spec() -> bool {
        true
    }

    fn to_owned_equivalent(&self) -> (key: String) {
        self.to_owned()
    }
}

/// A slice is turned into the vector of the clones of its items.
impl<T: Clone + PartialEq> ToOwnedEquivalent<Vec<T>> for [T] {
    open spec fn obeys_to_owned_spec() -> bool {
        forall|item: T, copy: T| #[trigger] cloned(item, copy) ==> item.eq_spec(&copy)
    }

    fn to_owned_equivalent(&self) -> (key: Vec<T>) {
        let mut key: Vec<T> = Vec::new();
        let mut at: usize = 0;
        while at < self.len()
            invariant
                at <= self@.len(),
                key@.len() == at,
                forall|i: int| 0 <= i < at ==> cloned(#[trigger] self@[i], key@[i]),
            decreases self@.len() - at,
        {
            let copy = self[at].clone();
            assert(cloned(self@[at as int], copy));
            key.push(copy);
            at += 1;
        }
        key
    }
}

} // verus!
