//! Sizes of one type measured in another.
use vstd::prelude::*;
use vstd::layout::size_of;

verus! {

/// How many `U` take the room of `mult` values of `T`; the room must be a
/// whole number of `U`.
pub fn relative_size_of_mult<T, U>(mult: usize) -> (r: usize)
    requires
        size_of::<U>() > 0,
        mult * size_of::<T>() <= usize::MAX,
        (mult * size_of::<T>()) % (size_of::<U>() as int) == 0,
    ensures
        r == mult * size_of::<T>() / (size_of::<U>() as int),
{
    let t = std::mem::size_of::<T>();
    let u = std::mem::size_of::<U>();
    let room = mult * t;
    room / u
}

/// How many `U` take the room of one `T`.
pub fn relative_size_of<T, U>() -> (r: usize)
    requires
        size_of::<U>() > 0,
        size_of::<T>() <= usize::MAX,
        size_of::<T>() % size_of::<U>() == 0,
    ensures
        r == size_of::<T>() / size_of::<U>(),
{
    relative_size_of_mult::<T, U>(1)
}

} // verus!
