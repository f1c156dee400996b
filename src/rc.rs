//! A reference-counted pointer for one thread, without weak references.
use crate::layout::{extend_fits, extended, round_up, Layout};
use crate::with_hash::WithHash;
use crate::PreHash;
use vstd::layout::{align_of, size_of};
use vstd::prelude::*;

verus! {

/// Shared ownership of a `T` from one thread.
///
/// Cloning hands out one more owner of the same value; the value is dropped
/// and its memory released when the last owner goes away. The count is not
/// atomic, so a handle can neither be sent to nor shared with another thread.
pub struct Rc<T> {
    inner: std::rc::Rc<T>,
}

impl<T> Rc<T> {
    /// The shared value.
    pub closed spec fn value_spec(&self) -> T {
        *self.inner
    }

    /// Puts `value` in a new block, with one owner.
    pub fn new(value: T) -> (r: Rc<T>)
        ensures
            r.value_spec() == value,
    {
        Rc { inner: std::rc::Rc::new(value) }
    }

    /// Read access to the shared value.
    pub fn as_ref(&self) -> (r: &T)
        ensures
            *r == self.value_spec(),
    {
        &*self.inner
    }

    /// One more owner of the same value.
    pub fn clone(&self) -> (r: Rc<T>)
        ensures
            r.value_spec() == self.value_spec(),
    {
        Rc { inner: std::rc::Rc::clone(&self.inner) }
    }
}

impl<T> std::ops::Deref for Rc<T> {
    type Target = T;

    fn deref(&self) -> (r: &T)
        ensures
            *r == self.value_spec(),
    {
        &*self.inner
    }
}

impl<T: Copy> Rc<WithHash<Vec<T>>> {
    /// A new block holding a copy of `input` together with the slice's hash.
    pub fn from_slice(input: &[T]) -> (r: Rc<WithHash<Vec<T>>>)
        where
            T: std::hash::Hash,
        ensures
            r.value_spec().value_spec()@ == input@,
    {
        Rc::new(WithHash::from_slice(input))
    }
}

impl<T> PreHash for Rc<WithHash<T>> {
    type Hashed = T;

    open spec fn stored_hash(self_: &Self) -> u64 {
        self_.value_spec().hash_spec()
    }

    open spec fn hashed_view(self_: &Self) -> T {
        self_.value_spec().value_spec()
    }

    fn precomputed_hash(self_: &Self) -> (r: u64) {
        WithHash::precomputed_hash(self_.as_ref())
    }

    fn hashed_value(self_: &Self) -> (r: &T) {
        WithHash::hashed_value(self_.as_ref())
    }
}

/// The reference count that heads each block.
pub open spec fn count_header() -> Layout {
    Layout { size: size_of::<usize>() as usize, align: align_of::<usize>() as usize }
}

/// The layout of a `#[repr(C)]` block of a reference count followed by a
/// value of layout `value_layout`, padded to its alignment, and the offset of
/// the value. The block must fit in `isize`.
pub fn rcbox_layout_and_value_offset(value_layout: Layout) -> (r: (Layout, usize))
    requires
        value_layout.wf(),
        extend_fits(count_header(), value_layout),
    ensures
        r.0.align == extended(count_header(), value_layout).align,
        r.0.size == round_up(
            extended(count_header(), value_layout).size as int,
            extended(count_header(), value_layout).align as int,
        ),
        r.1 == round_up(size_of::<usize>() as int, value_layout.align as int),
{
    let (l, offset) = Layout::of::<usize>().extend(value_layout).unwrap();
    (l.pad_to_align(), offset)
}

} // verus!
