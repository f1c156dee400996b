//! Values that carry a hash computed once, a reference-counted pointer for
//! them, and a map that routes its lookups by those stored hashes alone.
use vstd::prelude::*;

pub mod layout;
mod map;
mod rc;
mod with_hash;

pub use rc::{rcbox_layout_and_value_offset, Rc};
pub use map::{
    insert_all, key_of, lemma_distinct_inserts_are_found, lemma_insert_existing_replaces,
    PreHashMap,
};
pub use with_hash::WithHash;

verus! {

/// Computes the hash of `value` with std's default hasher.
///
/// Relies on `std::hash::BuildHasher::hash_one` over
/// `BuildHasherDefault<DefaultHasher>`: every hasher that it builds starts
/// from the same keys, so equal values give equal hashes for the whole run.
#[verifier::external_body]
pub fn hash<T: ?Sized + std::hash::Hash>(value: &T) -> (r: u64) {
    std::hash::BuildHasher::hash_one(
        &std::hash::BuildHasherDefault::<std::collections::hash_map::DefaultHasher>::default(),
        value,
    )
}

/// A type that can hand out a hash computed earlier, together with the value
/// that the hash was computed over.
///
/// The accessors are associated functions rather than methods, so that they
/// do not shadow methods of a target type reached through `Deref`.
pub trait PreHash {
    type Hashed;

    /// The hash that this value holds.
    spec fn stored_hash(self_: &Self) -> u64;

    /// The value whose hash is held.
    spec fn hashed_view(self_: &Self) -> Self::Hashed;

    /// Returns the stored hash: every call on the same value gives the same one.
    fn precomputed_hash(self_: &Self) -> (r: u64)
        ensures
            r == Self::stored_hash(self_),
    ;

    /// Returns the value whose hash is stored.
    fn hashed_value(self_: &Self) -> (r: &Self::Hashed)
        ensures
            *r == Self::hashed_view(self_),
    ;
}

} // verus!
