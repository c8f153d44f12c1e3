use vstd::prelude::*;

verus! {

/// An array that travels with its length in front.
pub type Array<T> = Vec<T>;

/// The rest of the bytes, as one array with no length in front.
pub type RemainingArray<T> = Vec<T>;

} // verus!
