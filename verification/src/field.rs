//! Scalars as the indexer sees them.

use vstd::prelude::*;

verus! {

/// A scalar of the commitment scheme's field, carried as four 64-bit limbs,
/// least significant first.
///
/// The indexer never computes with scalars: it moves them between slots and
/// fills empty slots with the additive identity. A plain limb representation
/// is therefore all it needs; the commitment boundary turns the limbs back
/// into a field element (reducing modulo the field's order).
#[derive(Clone, Copy, Debug, PartialEq, Eq, Structural)]
pub struct Fe {
    pub l0: u64,
    pub l1: u64,
    pub l2: u64,
    pub l3: u64,
}

impl Fe {
    /// The additive identity.
    pub open spec fn spec_zero() -> Fe {
        Fe { l0: 0, l1: 0, l2: 0, l3: 0 }
    }

    /// The additive identity, used for slots a matrix does not reference and
    /// for the padding region of the value arrays.
    pub fn zero() -> (r: Fe)
        ensures
            r == Fe::spec_zero(),
    {
        Fe { l0: 0, l1: 0, l2: 0, l3: 0 }
    }

    pub open spec fn spec_from_u64(x: u64) -> Fe {
        Fe { l0: x, l1: 0, l2: 0, l3: 0 }
    }

    /// Embed a small count into the field.
    pub fn from_u64(x: u64) -> (r: Fe)
        ensures
            r == Fe::spec_from_u64(x),
    {
        Fe { l0: x, l1: 0, l2: 0, l3: 0 }
    }
}

} // verus!
