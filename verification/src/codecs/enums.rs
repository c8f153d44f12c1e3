use vstd::prelude::*;

verus! {

/// An enum value; it travels as the number behind its variant.
pub type Enum<T> = T;

} // verus!
