use vstd::prelude::*;

verus! {

/// Index of an object in the objects buffer.
#[derive(Clone, Copy, Debug, PartialEq, Eq, Structural)]
pub struct ObjectId(pub u32);

} // verus!
