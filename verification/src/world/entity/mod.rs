//! What every entity of the world has.
use uuid::Uuid;
use vstd::prelude::*;

pub mod player;
pub mod structure;

verus! {

/// Whether 128 bits are those of a random (version 4, RFC 4122 variant)
/// UUID: version nibble 4, variant bits 10.
pub open spec fn is_random_uuid(u: u128) -> bool {
    (u >> 76u128) & 0xf == 4 && (u >> 62u128) & 0x3 == 2
}

/// `uuid::Uuid::new_v4`, as bits: random bits with the version nibble set to
/// 4 and the variant bits to 10, which is all that can be said of them.
#[verifier::external_body]
fn random_uuid() -> (r: u128)
    ensures
        is_random_uuid(r),
{
    Uuid::new_v4().as_u128()
}

/// The part every entity has: its UUID.
pub struct EntityBase {
    pub uuid: u128,
}

impl EntityBase {
    /// A base with a fresh random UUID.
    pub fn new() -> (r: Self)
        ensures
            is_random_uuid(r.uuid),
    {
        Self { uuid: random_uuid() }
    }
}

impl Default for EntityBase {
    fn default() -> (r: Self)
        ensures
            is_random_uuid(r.uuid),
    {
        Self::new()
    }
}

} // verus!
