//! Viewing a value as an array of smaller elements.
use vstd::prelude::*;
use vstd::layout::size_of;

verus! {

/// How many whole `R` fit in a `T`.
pub fn slice_element_count<T, R>() -> (r: usize)
    requires
        size_of::<R>() > 0,
    ensures
        r == size_of::<T>() / size_of::<R>(),
{
    core::mem::size_of::<T>() / core::mem::size_of::<R>()
}

} // verus!
