use vstd::prelude::*;
use crate::model_matrices::ModelMatrixId;

verus! {

/// A line mesh in the wireframe vertex buffer: where its vertices start and
/// which model matrix places it.
#[derive(Clone, Copy, Debug, PartialEq, Eq, Structural)]
pub struct Wireframe {
    pub model_matrix_id: ModelMatrixId,
    pub vertex_buffer_offset: u32,
}

} // verus!
