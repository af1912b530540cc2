use vstd::prelude::*;

verus! {

/// An element of the two-element field.
#[derive(Clone, Copy, Debug, PartialEq, Eq, Structural)]
pub enum GF2 {
    B0,
    B1,
}

/// Field addition: exclusive or.
pub open spec fn gf2_add(a: GF2, b: GF2) -> GF2 {
    if a == b {
        GF2::B0
    } else {
        GF2::B1
    }
}

impl GF2 {
    /// Adds two field elements (exclusive or).
    pub fn plus(self, other: GF2) -> (r: GF2)
        ensures
            r == gf2_add(self, other),
    {
        if self == other {
            GF2::B0
        } else {
            GF2::B1
        }
    }
}

} // verus!
