use vstd::prelude::*;

verus! {

/// Index of a material in the materials buffer.
#[derive(Clone, Copy, Debug, PartialEq, Eq, Structural)]
pub struct MaterialId(pub u32);

} // verus!
