use vstd::prelude::*;

verus! {

/// Index of a model matrix in the model-matrix buffer.
#[derive(Clone, Copy, Debug, PartialEq, Eq, Structural)]
pub struct ModelMatrixId(pub u32);

} // verus!
