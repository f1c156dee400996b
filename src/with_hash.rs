//! A value stored together with its hash.
use crate::layout::{extend_fits, extended, round_up, valid_layout_int, Layout};
use crate::{hash, PreHash};
use vstd::layout::{align_of, size_of};
use vstd::prelude::*;

verus! {

/// Stores a `T` value together with its hash, computed once at construction.
///
/// The value is only ever handed out by shared reference, so the hash stays
/// the hash of the value for the whole life of the carrier.
#[derive(Clone, Copy, Debug)]
pub struct WithHash<T> {
    hash: u64,
    value: T,
}

impl<T> WithHash<T> {
    /// The stored hash.
    pub closed spec fn hash_spec(&self) -> u64 {
        self.hash
    }

    /// The stored value.
    pub closed spec fn value_spec(&self) -> T {
        self.value
    }

    /// Hashes `value` once and stores the hash beside it.
    pub fn new(value: T) -> (r: WithHash<T>)
        where
            T: std::hash::Hash,
        ensures
            r.value_spec() == value,
    {
        let hash = hash(&value);
        WithHash { hash, value }
    }

    /// Read access to the stored value.
    pub fn as_ref(&self) -> (r: &T)
        ensures
            *r == self.value_spec(),
    {
        &self.value
    }
}

impl<T> std::ops::Deref for WithHash<T> {
    type Target = T;

    fn deref(&self) -> (r: &T)
        ensures
            *r == self.value_spec(),
    {
        &self.value
    }
}

impl<T: Copy> WithHash<Vec<T>> {
    /// Copies the elements of `input` and stores them with the hash of the
    /// slice.
    pub fn from_slice(input: &[T]) -> (r: WithHash<Vec<T>>)
        where
            T: std::hash::Hash,
        ensures
            r.value_spec()@ == input@,
    {
        let hash = hash(input);
        let mut value: Vec<T> = Vec::with_capacity(input.len());
        let mut i: usize = 0;
        while i < input.len()
            invariant
                i <= input@.len(),
                value@ == input@.subrange(0, i as int),
            decreases input@.len() - i,
        {
            value.push(input[i]);
            i = i + 1;
            assert(value@ =~= input@.subrange(0, i as int));
        }
        assert(value@ =~= input@);
        WithHash { hash, value }
    }

    /// The layout of a `#[repr(C)]` record of a `u64` hash followed by `len`
    /// values of type `T`, padded to its alignment, and the offset of the
    /// first value. The record must fit in `isize`.
    pub fn slice_layout(len: usize) -> (r: (Layout, usize))
        requires
            slice_record_fits::<T>(len as int),
        ensures
            r.0 == slice_record::<T>(len as int),
            r.1 == round_up(size_of::<u64>() as int, align_of::<T>() as int),
    {
        let header = Layout::of::<u64>();
        let values = Layout::array::<T>(len).unwrap();
        let (l, offset) = header.extend(values).unwrap();
        (l.pad_to_align(), offset)
    }
}

/// The layout of `len` values of type `T` side by side.
pub open spec fn slice_values<T>(len: int) -> Layout {
    Layout { size: (len * size_of::<T>()) as usize, align: align_of::<T>() as usize }
}

/// The hash header of a record.
pub open spec fn hash_header() -> Layout {
    Layout { size: size_of::<u64>() as usize, align: align_of::<u64>() as usize }
}

/// Whether a record of a hash and `len` values of type `T` has a valid layout.
pub open spec fn slice_record_fits<T>(len: int) -> bool {
    &&& valid_layout_int(len * size_of::<T>(), align_of::<T>() as int)
    &&& extend_fits(hash_header(), slice_values::<T>(len))
}

/// The layout of a record of a hash and `len` values of type `T`, padded to
/// its alignment.
pub open spec fn slice_record<T>(len: int) -> Layout {
    let l = extended(hash_header(), slice_values::<T>(len));
    Layout { size: round_up(l.size as int, l.align as int) as usize, align: l.align }
}

impl WithHash<String> {
    /// Copies `input` and stores it with the hash of the text.
    pub fn from_text(input: &str) -> (r: WithHash<String>)
        ensures
            r.value_spec()@ == input@,
    {
        let hash = hash(input);
        let value = input.to_owned();
        WithHash { hash, value }
    }
}

impl<T> PreHash for WithHash<T> {
    type Hashed = T;

    open spec fn stored_hash(self_: &Self) -> u64 {
        self_.hash_spec()
    }

    open spec fn hashed_view(self_: &Self) -> T {
        self_.value_spec()
    }

    fn precomputed_hash(self_: &Self) -> (r: u64) {
        self_.hash
    }

    fn hashed_value(self_: &Self) -> (r: &T) {
        &self_.value
    }
}

impl<'a, T> PreHash for &'a WithHash<T> {
    type Hashed = T;

    open spec fn stored_hash(self_: &Self) -> u64 {
        self_.hash_spec()
    }

    open spec fn hashed_view(self_: &Self) -> T {
        self_.value_spec()
    }

    fn precomputed_hash(self_: &Self) -> (r: u64) {
        self_.hash
    }

    fn hashed_value(self_: &Self) -> (r: &T) {
        &self_.value
    }
}

impl<'a, T> PreHash for &'a mut WithHash<T> {
    type Hashed = T;

    open spec fn stored_hash(self_: &Self) -> u64 {
        self_.hash_spec()
    }

    open spec fn hashed_view(self_: &Self) -> T {
        self_.value_spec()
    }

    fn precomputed_hash(self_: &Self) -> (r: u64) {
        self_.hash
    }

    fn hashed_value(self_: &Self) -> (r: &T) {
        &self_.value
    }
}

impl<T> PreHash for Box<WithHash<T>> {
    type Hashed = T;

    open spec fn stored_hash(self_: &Self) -> u64 {
        self_.hash_spec()
    }

    open spec fn hashed_view(self_: &Self) -> T {
        self_.value_spec()
    }

    fn precomputed_hash(self_: &Self) -> (r: u64) {
        self_.hash
    }

    fn hashed_value(self_: &Self) -> (r: &T) {
        &self_.value
    }
}

impl<T> PreHash for std::rc::Rc<WithHash<T>> {
    type Hashed = T;

    open spec fn stored_hash(self_: &Self) -> u64 {
        self_.hash_spec()
    }

    open spec fn hashed_view(self_: &Self) -> T {
        self_.value_spec()
    }

    fn precomputed_hash(self_: &Self) -> (r: u64) {
        self_.hash
    }

    fn hashed_value(self_: &Self) -> (r: &T) {
        &self_.value
    }
}

impl<T> PreHash for std::sync::Arc<WithHash<T>> {
    type Hashed = T;

    open spec fn stored_hash(self_: &Self) -> u64 {
        self_.hash_spec()
    }

    open spec fn hashed_view(self_: &Self) -> T {
        self_.value_spec()
    }

    fn precomputed_hash(self_: &Self) -> (r: u64) {
        self_.hash
    }

    fn hashed_value(self_: &Self) -> (r: &T) {
        &self_.value
    }
}

} // verus!
