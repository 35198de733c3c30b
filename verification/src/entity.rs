//! Entity identifiers.

use vstd::prelude::*;

verus! {

/// Opaque handle of a simulation object.
///
/// The handle only identifies: two handles name the same object exactly when
/// their bits are equal. Whether the object still exists is not for the
/// handle to say, but for the store that is asked for it.
#[derive(Clone, Copy, Debug, PartialEq, Eq, Hash, Structural)]
pub struct Entity {
    bits: u64,
}

impl Entity {
    /// The bits that identify the entity.
    pub closed spec fn spec_bits(self) -> u64 {
        self.bits
    }

    /// The entity that `bits` identify.
    pub fn from_bits(bits: u64) -> (entity: Entity)
        ensures
            entity.spec_bits() == bits,
    {
        Entity { bits }
    }

    /// The bits that identify the entity.
    #[verifier::when_used_as_spec(spec_bits)]
    pub fn to_bits(self) -> (bits: u64)
        ensures
            bits == self.spec_bits(),
    {
        self.bits
    }

    /// Two entities with the same bits are the same entity.
    pub broadcast proof fn lemma_bits_identify(a: Entity, b: Entity)
        ensures
            #[trigger] a.spec_bits() == #[trigger] b.spec_bits() <==> a == b,
    {
    }
}

} // verus!
