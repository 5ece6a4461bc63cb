use vstd::prelude::*;
use crate::shadow_map_atlas::ShadowMapAtlasEntry;

verus! {

/// The shadow-map light records of a point light's six cube faces.
#[derive(Clone, Copy, Debug, PartialEq, Eq, Structural)]
pub struct ShadowMapLightIds {
    pub x: u32,
    pub neg_x: u32,
    pub y: u32,
    pub neg_y: u32,
    pub z: u32,
    pub neg_z: u32,
}

/// One face of a point light's shadow cube: its light record and its tile
/// in the shadow-map atlas.
#[derive(Clone, Copy, Debug)]
pub struct PointLightShadowMapFace {
    pub shadow_map_light_gpu_id: u32,
    pub shadow_map_atlas_entry: ShadowMapAtlasEntry,
}

/// The six faces of a point light's shadow cube, one per axis direction.
#[derive(Clone, Copy, Debug)]
pub struct PointLightShadowMapFaces {
    pub x: PointLightShadowMapFace,
    pub neg_x: PointLightShadowMapFace,
    pub y: PointLightShadowMapFace,
    pub neg_y: PointLightShadowMapFace,
    pub z: PointLightShadowMapFace,
    pub neg_z: PointLightShadowMapFace,
}

pub struct PointLight {
    pub shadow_map_faces: PointLightShadowMapFaces,
}

impl PointLightShadowMapFaces {
    /// The light record of each face.
    pub fn light_ids(&self) -> (r: ShadowMapLightIds)
        ensures
            r == (ShadowMapLightIds {
                x: self.x.shadow_map_light_gpu_id,
                neg_x: self.neg_x.shadow_map_light_gpu_id,
                y: self.y.shadow_map_light_gpu_id,
                neg_y: self.neg_y.shadow_map_light_gpu_id,
                z: self.z.shadow_map_light_gpu_id,
                neg_z: self.neg_z.shadow_map_light_gpu_id,
            }),
    {
        ShadowMapLightIds {
            x: self.x.shadow_map_light_gpu_id,
            neg_x: self.neg_x.shadow_map_light_gpu_id,
            y: self.y.shadow_map_light_gpu_id,
            neg_y: self.neg_y.shadow_map_light_gpu_id,
            z: self.z.shadow_map_light_gpu_id,
            neg_z: self.neg_z.shadow_map_light_gpu_id,
        }
    }
}

} // verus!
