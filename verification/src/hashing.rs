//! Hashing a query with the map's hash builder.
//!
//! A request is hashed once. The same number then serves the probe and, when
//! a slot has to be created, the insertion. The hashers are those of the
//! standard library's traits; none of them is proved or specified here.
use core::hash::{BuildHasher, Hash, Hasher};
use vstd::prelude::*;

verus! {

/// `ahash::AHasher`, the hasher of the default hash builder. Nothing of it is
/// known here: it only names the builder's type.
#[verifier::external_type_specification]
#[verifier::external_body]
pub struct ExAHasher(ahash::AHasher);

/// `core::hash::BuildHasherDefault`, of which the default hash builder is
/// one. Nothing of it is known here: a map carries it and hands it to
/// `hash_one`.
#[verifier::external_type_specification]
#[verifier::external_body]
#[verifier::reject_recursive_types(H)]
pub struct ExBuildHasherDefault<H>(core::hash::BuildHasherDefault<H>);

/// `BuildHasherDefault::default`, for the hash builder that `hashbrown` uses
/// by default. Nothing is claimed of the builder.
#[verifier::external_body]
pub(crate) fn default_hash_builder() -> (hash_builder: hashbrown::hash_map::DefaultHashBuilder) {
    hashbrown::hash_map::DefaultHashBuilder::default()
}

/// `BuildHasher::build_hasher`: a fresh hasher of the builder. Nothing is
/// claimed of its state.
#[verifier::external_body]
fn start_hasher<S: BuildHasher>(hash_builder: &S) -> (state: S::Hasher) {
    hash_builder.build_hasher()
}

/// `Hash::hash`: feeds the key to the hasher and hands the hasher back.
/// Nothing is claimed of its state.
#[verifier::external_body]
fn feed<Q: Hash + ?Sized, H: Hasher>(key: &Q, state: H) -> (fed: H) {
    let mut state = state;
    key.hash(&mut state);
    state
}

/// `Hasher::finish`: the number for what was fed so far. Nothing is claimed
/// of it.
#[verifier::external_body]
fn digest<H: Hasher>(state: &H) -> (hash: u64) {
    state.finish()
}

/// Hashes `key` with a fresh hasher of `hash_builder`: `hashes_to` holds of
/// the number. The map's contracts hold for whatever number comes back and
/// speak of it as the hash of the request.
pub fn hash_one<S: BuildHasher, Q: Hash + ?Sized>(hash_builder: &S, key: &Q) -> (hash: u64)
    ensures
        hashes_to(hash_builder, key, hash),
{
    let fresh = start_hasher(hash_builder);
    let fed = feed(key, fresh);
    digest(&fed)
}

/// `hash` is a number that hashing `key` with `hash_builder` may give: what
/// a fresh hasher of the builder gives when it has been fed the key.
///
/// The number depends on the builder's seed and on the `Hash` impl of `Q`.
/// Nothing is said here of what it is, nor that it is the same each time.
pub closed spec fn hashes_to<S: BuildHasher, Q: Hash + ?Sized>(
    hash_builder: &S,
    key: &Q,
    hash: u64,
) -> bool {
    exists|fresh: S::Hasher, fed: S::Hasher|
        {
            &&& #[trigger] call_ensures(start_hasher::<S>, (hash_builder,), fresh)
            &&& #[trigger] call_ensures(feed::<Q, S::Hasher>, (key, fresh), fed)
            &&& call_ensures(digest::<S::Hasher>, (&fed,), hash)
        }
}

} // verus!
