use vstd::prelude::*;

verus! {

/// Opaque identifier of an entity: the 128 bits of a UUID.
#[derive(Clone, Copy, Debug, PartialEq, Eq, Structural, Hash, PartialOrd, Ord)]
pub struct Id {
    pub value: u128,
}

/// Relies on uuid's `Uuid::new_v4` (random bits) read back through `as_u128`.
/// Nothing is promised of the value.
#[verifier::external_body]
fn random_uuid_bits() -> (r: u128) {
    uuid::Uuid::new_v4().as_u128()
}

impl Id {
    /// A fresh random (version 4) identifier.
    pub fn new_v4() -> (r: Id) {
        Id { value: random_uuid_bits() }
    }

    pub fn from_u128(value: u128) -> (r: Id)
        ensures
            r.value == value,
    {
        Id { value }
    }

    pub fn as_u128(&self) -> (r: u128)
        ensures
            r == self.value,
    {
        self.value
    }
}

} // verus!
