use vstd::prelude::*;

pub mod camera;
pub mod clip;
pub mod cuboid;
pub mod light;
pub mod material;
pub mod model_matrices;
pub mod objects;
pub mod reactive;
pub mod shadow_fit;
pub mod shadow_map_atlas;
pub mod wireframe;

verus! {

} // verus!
