use concinnity_gfx::float_bits::{FloatBits, Mat4};
use concinnity_gfx::geometry::LodAlternate;
use concinnity_gfx::render_types::{MaterialEntry, MaterialUniforms};
use concinnity_gfx::skinned::{
    SkinnedGeometry, SkinnedVertex, UnknownMaterial, assemble_skinned,
};
use std::collections::HashMap;

fn bits(x: f32) -> FloatBits {
    FloatBits::new(x.to_bits())
}

fn identity() -> Mat4 {
    let mut m = [[bits(0.0); 4]; 4];
    for i in 0..4 {
        m[i][i] = bits(1.0);
    }
    m
}

fn vertex(x: f32, y: f32, z: f32) -> SkinnedVertex {
    SkinnedVertex {
        pos: [bits(x), bits(y), bits(z)],
        normal: [bits(0.0); 3],
        tangent: [bits(0.0); 3],
        uv: [bits(0.0); 2],
        joints: [0; 4],
        weights: [bits(1.0), bits(0.0), bits(0.0), bits(0.0)],
    }
}

fn plain(roughness: f32) -> MaterialUniforms {
    MaterialUniforms {
        roughness: bits(roughness),
        metallic: bits(0.0),
        macro_variation: bits(0.0),
        terrain_blend: bits(0.0),
        tint: [bits(1.0); 3],
        emissive: [bits(0.0); 3],
        secondary_blend_sharpness: bits(0.0),
        albedo_secondary_index: 0,
        normal_secondary_index: 0,
        emissive_map_index: 0,
        orm_map_index: 0,
        opacity: bits(1.0),
        transparent: 0,
        see_through: 0,
    }
}

fn mesh(asset_id: u32, n: usize, joints: usize) -> SkinnedGeometry {
    SkinnedGeometry {
        asset_id,
        material: None,
        texture: None,
        source: String::new(),
        model: identity(),
        vertices: (0..n).map(|i| vertex(i as f32, -(i as f32), 2.0)).collect(),
        indices: (0..n as u16).collect(),
        lod_alternates: vec![],
        joints,
    }
}

#[test]
fn meshes_share_the_buffers() {
    let mut a = mesh(1, 3, 10);
    a.lod_alternates = vec![LodAlternate { switch_distance: bits(20.0), indices: vec![0, 2] }];
    a.source = "rigs/a.glb".to_string();
    let b = mesh(2, 4, 200);
    let scene =
        assemble_skinned(&vec![a, b], &HashMap::new(), &HashMap::new(), plain(0.9), 64, true)
            .unwrap();
    assert_eq!(scene.vertices.len(), 7);
    assert_eq!(scene.indices, vec![0, 1, 2, 0, 2, 3, 4, 5, 6]);
    let (a, b) = (&scene.draws[0], &scene.draws[1]);
    assert_eq!((a.vertex_base, a.vertex_count, a.index_offset, a.index_count), (0, 3, 0, 3));
    assert_eq!((b.vertex_base, b.vertex_count, b.index_offset, b.index_count), (3, 4, 5, 4));
    assert_eq!((a.lod_alternates[0].index_offset, a.lod_alternates[0].index_count), (3, 2));
    assert_eq!(a.lod_alternates[0].switch_distance, bits(20.0));
    // Joints are capped, and every draw starts visible.
    assert_eq!((a.joint_count, b.joint_count), (10, 64));
    assert!(a.visible && b.visible);
    assert_eq!(b.local_bb_min.map(|v| f32::from_bits(v.bits)), [0.0, -3.0, 2.0]);
    assert_eq!(b.local_bb_max.map(|v| f32::from_bits(v.bits)), [3.0, 0.0, 2.0]);
    // Every index of a draw reads the draw's own vertices.
    for d in &scene.draws {
        for i in &scene.indices[d.index_offset..d.index_offset + d.index_count] {
            assert!(*i >= d.vertex_base && ((*i - d.vertex_base) as usize) < d.vertex_count);
        }
    }
    assert_eq!(scene.sources.len(), 1);
    assert_eq!(scene.sources.entries[0].source, "rigs/a.glb");
    assert_eq!(scene.sources.entries[0].joint_count, 10);
}

#[test]
fn an_empty_mesh_has_a_box_of_zeros() {
    let scene = assemble_skinned(
        &vec![mesh(1, 0, 1)],
        &HashMap::new(),
        &HashMap::new(),
        plain(0.9),
        64,
        true,
    )
    .unwrap();
    assert_eq!(scene.draws[0].local_bb_min, [bits(0.0); 3]);
    assert_eq!(scene.draws[0].local_bb_max, [bits(0.0); 3]);
    assert!(scene.sources.is_empty());
}

#[test]
fn the_look_is_the_materials_or_the_textures() {
    let mut shaded = mesh(1, 3, 1);
    shaded.material = Some(7);
    shaded.texture = Some(8);
    let mut textured = mesh(2, 3, 1);
    textured.texture = Some(8);
    let mut lost = mesh(3, 3, 1);
    lost.texture = Some(99);
    let materials = HashMap::from([(
        7,
        MaterialEntry { texture_slot: 4, normal_map_slot: 5, uniforms: plain(0.2) },
    )]);
    let textures = HashMap::from([(8, 6)]);
    let scene =
        assemble_skinned(&vec![shaded, textured, lost], &materials, &textures, plain(0.9), 64, true)
            .unwrap();
    assert_eq!((scene.draws[0].texture_slot, scene.draws[0].normal_map_slot), (4, 5));
    assert_eq!(scene.draws[0].material.roughness, bits(0.2));
    assert_eq!((scene.draws[1].texture_slot, scene.draws[1].normal_map_slot), (6, 0));
    assert_eq!(scene.draws[1].material.roughness, bits(0.9));
    assert_eq!(scene.draws[2].texture_slot, 0);
}

#[test]
fn an_unknown_material_fails() {
    let mut m = mesh(3, 3, 1);
    m.material = Some(44);
    assert_eq!(
        assemble_skinned(
            &vec![mesh(1, 3, 1), m],
            &HashMap::new(),
            &HashMap::new(),
            plain(0.9),
            64,
            true
        )
        .unwrap_err(),
        UnknownMaterial { mesh: 3, material: 44 }
    );
}
