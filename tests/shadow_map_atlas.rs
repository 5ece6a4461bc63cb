use it::light::{PointLightShadowMapFace, PointLightShadowMapFaces, ShadowMapLightIds};
use it::shadow_map_atlas::{AtlasPosition, ShadowMapAtlas, ENTRY_SIZE};

#[test]
fn sixteen_tiles_fit_a_4096_atlas_without_overlap() {
    let mut atlas = ShadowMapAtlas::new(4096);
    let mut positions: Vec<AtlasPosition> = Vec::new();
    for _ in 0..16 {
        assert!(atlas.has_room());
        let entry = atlas.allocate();
        assert_eq!(entry.size(), 1024);
        positions.push(entry.position());
    }
    assert_eq!(atlas.len(), 16);
    for (i, a) in positions.iter().enumerate() {
        assert!(a.x + ENTRY_SIZE <= 4096 && a.y + ENTRY_SIZE <= 4096);
        for b in positions.iter().skip(i + 1) {
            let overlap = a.x < b.x + ENTRY_SIZE
                && b.x < a.x + ENTRY_SIZE
                && a.y < b.y + ENTRY_SIZE
                && b.y < a.y + ENTRY_SIZE;
            assert!(!overlap, "{:?} overlaps {:?}", a, b);
        }
    }
    // A seventeenth tile does not fit.
    assert!(!atlas.has_room());
}

#[test]
fn tiles_fill_rows_left_to_right() {
    let mut atlas = ShadowMapAtlas::new(4096);
    let first: Vec<AtlasPosition> = (0..6).map(|_| atlas.allocate().position()).collect();
    assert_eq!(
        first,
        vec![
            AtlasPosition { x: 0, y: 0 },
            AtlasPosition { x: 1024, y: 0 },
            AtlasPosition { x: 2048, y: 0 },
            AtlasPosition { x: 3072, y: 0 },
            AtlasPosition { x: 0, y: 1024 },
            AtlasPosition { x: 1024, y: 1024 },
        ]
    );
}

#[test]
fn atlas_smaller_than_a_tile_has_no_room() {
    let atlas = ShadowMapAtlas::new(1000);
    assert!(!atlas.has_room());
    assert_eq!(atlas.len(), 0);
}

#[test]
fn atlas_of_one_tile() {
    let mut atlas = ShadowMapAtlas::new(1024);
    assert!(atlas.has_room());
    assert_eq!(atlas.allocate().position(), AtlasPosition { x: 0, y: 0 });
    assert!(!atlas.has_room());
}

#[test]
fn partial_tiles_at_the_edge_are_not_used() {
    // 2500 texels hold two whole tiles per side.
    let mut atlas = ShadowMapAtlas::new(2500);
    let mut n = 0;
    while atlas.has_room() {
        let p = atlas.allocate().position();
        assert!(p.x + ENTRY_SIZE <= 2500 && p.y + ENTRY_SIZE <= 2500);
        n += 1;
    }
    assert_eq!(n, 4);
}

#[test]
fn point_light_faces_report_their_records() {
    let mut atlas = ShadowMapAtlas::new(4096);
    let mut face = |id: u32| PointLightShadowMapFace {
        shadow_map_light_gpu_id: id,
        shadow_map_atlas_entry: atlas.allocate(),
    };
    let faces = PointLightShadowMapFaces {
        x: face(3),
        neg_x: face(4),
        y: face(5),
        neg_y: face(6),
        z: face(7),
        neg_z: face(8),
    };
    assert_eq!(
        faces.light_ids(),
        ShadowMapLightIds { x: 3, neg_x: 4, y: 5, neg_y: 6, z: 7, neg_z: 8 }
    );
    assert_eq!(faces.neg_z.shadow_map_atlas_entry.position(), AtlasPosition { x: 1024, y: 1024 });
}
