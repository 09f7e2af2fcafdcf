use concinnity_gfx::draw_list::{
    DrawListData, DrawListError, InstancedProp, Prop, PropCollider, RoomGeometry, SceneInputs,
    SubMeshRef, build_draw_list, is_dynamic_prop,
};
use concinnity_gfx::float_bits::{FloatBits, Mat4, Vec3};
use concinnity_gfx::geometry::{LoadedMesh, LodAlternate, local_bounds};
use concinnity_gfx::render_types::{MaterialEntry, MaterialUniforms, Vertex};
use concinnity_gfx::world_matrices::{compute_world_matrices, propagate_transforms};
use std::collections::{HashMap, HashSet};

type M = [[f32; 4]; 4];

const IDENTITY4: M = [
    [1.0, 0.0, 0.0, 0.0],
    [0.0, 1.0, 0.0, 0.0],
    [0.0, 0.0, 1.0, 0.0],
    [0.0, 0.0, 0.0, 1.0],
];

fn bits(x: f32) -> FloatBits {
    FloatBits::new(x.to_bits())
}

fn num(x: FloatBits) -> f32 {
    f32::from_bits(x.bits)
}

fn mat_mul4(a: M, b: M) -> M {
    let mut out = [[0.0f32; 4]; 4];
    for col in 0..4 {
        for row in 0..4 {
            for k in 0..4 {
                out[col][row] += a[k][row] * b[col][k];
            }
        }
    }
    out
}

fn translation(p: [f32; 3]) -> M {
    let mut m = IDENTITY4;
    m[3] = [p[0], p[1], p[2], 1.0];
    m
}

fn carried(m: M) -> Mat4 {
    m.map(|c| c.map(bits))
}

fn make_prop() -> Prop {
    Prop {
        asset_id: 0,
        model: None,
        mesh: None,
        material: None,
        texture: None,
        collider: None,
        interactable: false,
        pickup: false,
        parent: None,
        scene: None,
        cull_distance: bits(0.0),
        is_held: false,
    }
}

// The per-entity transform path must produce the matrices of the positional path, so
// the per-frame model-matrix push is unchanged.
#[test]
fn propagate_transforms_matches_compute_world_matrices() {
    // A child parented to a root; the columns of two general placements.
    let parent_t: M = [
        [0.8660254, 0.0, -0.5, 0.0],
        [0.0, 1.0, 0.0, 0.0],
        [0.5, 0.0, 0.8660254, 0.0],
        [1.0, 2.0, 3.0, 1.0],
    ];
    let child_t: M = [
        [1.9923894, 0.1716607, 0.030268, 0.0],
        [-0.1743115, 1.9621155, 0.3459727, 0.0],
        [0.0, -0.3472964, 1.9696155, 0.0],
        [0.0, 0.0, 1.0, 1.0],
    ];
    let (parent_e, child_e) = (4u64, 9u64);
    let global = propagate_transforms(
        &vec![(parent_e, parent_t), (child_e, child_t)],
        &HashMap::from([(child_e, parent_e)]),
        mat_mul4,
    );

    // Reference: the positional path over the same two transforms, child (index 1)
    // parented to parent (index 0).
    let ref_mats = compute_world_matrices(&vec![parent_t, child_t], &vec![None, Some(0)], mat_mul4);

    assert_eq!(global[0], ref_mats[0], "root GlobalTransform matches");
    assert_eq!(global[1], ref_mats[1], "child GlobalTransform matches");
}

#[test]
fn the_entity_and_the_flat_form_place_alike() {
    let step = |x: i64, y: i64| 10 * x + y;
    // A chain, an entity whose parent is not there, and two in a cycle.
    let locals: Vec<(u64, i64)> = vec![(7, 1), (3, 2), (5, 3), (8, 4), (1, 5), (2, 6)];
    let parents = HashMap::from([(3, 7), (5, 3), (8, 99), (1, 2), (2, 1)]);
    let placed = propagate_transforms(&locals, &parents, step);
    assert_eq!(placed, vec![1, 12, 123, 4, 5, 6]);
    assert_eq!(propagate_transforms(&locals, &parents, step), placed);
    let plain: Vec<i64> = locals.iter().map(|l| l.1).collect();
    for nowhere in [6, 40, usize::MAX] {
        let table = vec![None, Some(0), Some(1), Some(nowhere), Some(5), Some(4)];
        assert_eq!(compute_world_matrices(&plain, &table, step), placed);
    }
}

#[test]
fn is_dynamic_prop_flags_collider_bearing_props() {
    // A plain static prop stays in the BVH.
    let plain = make_prop();
    assert!(!is_dynamic_prop(&plain));

    // A prop with a collider rides a physics body that may translate /
    // rotate every step; the init-time BVH AABB would stale out, so it
    // must opt out of the BVH and pay the per-frame frustum test instead.
    // Reproduces the "physics ball disappears when the camera gets close"
    // bug: the ball rolled past its init AABB, so the BVH culled it even
    // when it was right in front of the camera.
    let mut with_collider = make_prop();
    with_collider.collider = Some(PropCollider::default());
    assert!(is_dynamic_prop(&with_collider));

    // The pre-existing dynamic flags (pickup / interactable / parent)
    // still mark a prop dynamic on their own.
    let mut pickup = make_prop();
    pickup.pickup = true;
    assert!(is_dynamic_prop(&pickup));

    let mut interactable = make_prop();
    interactable.interactable = true;
    assert!(is_dynamic_prop(&interactable));

    let mut parented = make_prop();
    parented.parent = Some(1);
    assert!(is_dynamic_prop(&parented));
}

#[test]
fn compute_world_matrices_flat_list() {
    let a = translation([1.0, 0.0, 0.0]);
    let b = translation([0.0, 2.0, 0.0]);
    let mats = compute_world_matrices(&vec![a, b], &vec![None, None], mat_mul4);
    assert_eq!(mats[0], a);
    assert_eq!(mats[1], b);
}

#[test]
fn compute_world_matrices_child_inherits_parent_translation() {
    let parent = translation([1.0, 0.0, 0.0]);
    let child = translation([0.0, 1.0, 0.0]);
    let mats = compute_world_matrices(&vec![parent, child], &vec![None, Some(0)], mat_mul4);
    // parent unchanged
    assert_eq!(mats[0], parent);
    // child world translation = parent_pos + child_pos = (1,1,0)
    // col 3 carries translation in column-major layout
    assert!((mats[1][3][0] - 1.0).abs() < 1e-5);
    assert!((mats[1][3][1] - 1.0).abs() < 1e-5);
    assert!((mats[1][3][2]).abs() < 1e-5);
}

#[test]
fn compute_world_matrices_cycle_falls_back_to_local() {
    let a = translation([1.0, 0.0, 0.0]);
    let b = translation([0.0, 1.0, 0.0]);
    // Mutual cycle: a's parent is b, b's parent is a; neither can resolve.
    let mats = compute_world_matrices(&vec![a, b], &vec![Some(1), Some(0)], mat_mul4);
    assert_eq!(mats[0], a);
    assert_eq!(mats[1], b);
}

#[test]
fn a_child_listed_before_its_parent_is_resolved() {
    let child = translation([0.0, 1.0, 0.0]);
    let parent = translation([1.0, 0.0, 0.0]);
    let mats = compute_world_matrices(&vec![child, parent], &vec![Some(1), None], mat_mul4);
    assert_eq!(mats[0][3], [1.0, 1.0, 0.0, 1.0]);
    assert_eq!(mats[1], parent);
}

fn vertex(x: f32, y: f32, z: f32) -> Vertex {
    Vertex {
        pos: [bits(x), bits(y), bits(z)],
        normal: [bits(0.0), bits(1.0), bits(0.0)],
        tangent: [bits(1.0), bits(0.0), bits(0.0)],
        color: [bits(1.0); 3],
        uv: [bits(0.0); 2],
    }
}

fn unit_quad_mesh() -> LoadedMesh {
    // Axis-aligned unit cube centred at origin; bounds = [-0.5, 0.5]^3.
    LoadedMesh {
        vertices: vec![
            vertex(-0.5, -0.5, -0.5),
            vertex(0.5, -0.5, -0.5),
            vertex(0.5, 0.5, -0.5),
            vertex(-0.5, 0.5, -0.5),
        ],
        indices: vec![0u16, 1, 2, 0, 2, 3],
        lod_alternates: Vec::new(),
    }
}

fn uniforms(roughness: f32) -> MaterialUniforms {
    let z = bits(0.0);
    MaterialUniforms {
        roughness: bits(roughness),
        metallic: z,
        macro_variation: z,
        terrain_blend: z,
        tint: [bits(1.0); 3],
        emissive: [z; 3],
        secondary_blend_sharpness: z,
        albedo_secondary_index: 0,
        normal_secondary_index: 0,
        emissive_map_index: 0,
        orm_map_index: 0,
        opacity: bits(1.0),
        transparent: 0,
        see_through: 0,
    }
}

fn inputs() -> SceneInputs {
    SceneInputs {
        props: Vec::new(),
        instanced_props: Vec::new(),
        world_mats: Vec::new(),
        model_map: HashMap::new(),
        mesh_geometry: HashMap::new(),
        room_geometry: Vec::new(),
        texture_name_to_slot: HashMap::new(),
        material_map: HashMap::new(),
        always_resident_meshes: HashSet::new(),
        default_material: uniforms(0.5),
        identity: carried(IDENTITY4),
    }
}

fn add_mesh(s: &mut SceneInputs, id: u32) {
    s.mesh_geometry.insert(id, unit_quad_mesh());
}

fn transform_box(lo: Vec3, hi: Vec3, m: Mat4) -> (Vec3, Vec3) {
    let (lo, hi, m) = (lo.map(num), hi.map(num), m.map(|c| c.map(num)));
    let mut low = [f32::INFINITY; 3];
    let mut high = [f32::NEG_INFINITY; 3];
    for corner in 0..8 {
        let p = [
            if corner & 1 == 0 { lo[0] } else { hi[0] },
            if corner & 2 == 0 { lo[1] } else { hi[1] },
            if corner & 4 == 0 { lo[2] } else { hi[2] },
        ];
        for r in 0..3 {
            let v = m[0][r] * p[0] + m[1][r] * p[1] + m[2][r] * p[2] + m[3][r];
            low[r] = low[r].min(v);
            high[r] = high[r].max(v);
        }
    }
    (low.map(bits), high.map(bits))
}

fn build(s: &SceneInputs) -> DrawListData {
    build_draw_list(s, transform_box).expect("build_draw_list")
}

fn fail(s: &SceneInputs) -> DrawListError {
    build_draw_list(s, transform_box).expect_err("a missing asset")
}

#[test]
fn build_draw_list_emits_one_cluster_for_instanced_prop() {
    let mut s = inputs();
    s.mesh_geometry.insert(0, unit_quad_mesh());
    s.instanced_props.push(InstancedProp {
        asset_id: 0,
        mesh: Some(0),
        material: None,
        texture: None,
        cull_distance: bits(0.0),
        instances: vec![
            carried(translation([0.0, 0.0, 0.0])),
            carried(translation([5.0, 0.0, 0.0])),
            carried(translation([-3.0, 0.0, 2.0])),
        ],
    });
    let list = build(&s);

    // Cluster mesh appended exactly once into the shared buffers.
    assert_eq!(list.vertices.len(), 4);
    assert_eq!(list.indices.len(), 6);
    // InstancedProp meshes go into clusters, not draw_objects; the
    // hot-reload map (which only tracks draw_objects-backed pushes) stays
    // empty for this scene.
    assert!(list.mesh_id_to_draws.is_empty());

    // Each instance no longer emits its own DrawObject; the cluster carries
    // every transform.
    assert!(list.draw_objects.is_empty());
    assert_eq!(list.instanced_clusters.len(), 1);
    let c = &list.instanced_clusters[0];
    assert_eq!(c.instances.len(), 3);
    assert_eq!(c.index_count, 6);

    // Union AABB over all per-instance world AABBs. The unit_quad_mesh
    // is planar at z=-0.5, so each instance contributes a flat slab in z;
    // x and y span the quad extent [-0.5, 0.5].
    assert!((num(c.cluster_bb_min[0]) - (-3.5)).abs() < 1e-5);
    assert!((num(c.cluster_bb_max[0]) - 5.5).abs() < 1e-5);
    assert!((num(c.cluster_bb_min[1]) - (-0.5)).abs() < 1e-5);
    assert!((num(c.cluster_bb_max[1]) - 0.5).abs() < 1e-5);
    // z: instances at z=0 give [-0.5,-0.5]; instance at z=2 gives [1.5,1.5];
    // union is [-0.5, 1.5].
    assert!((num(c.cluster_bb_min[2]) - (-0.5)).abs() < 1e-5);
    assert!((num(c.cluster_bb_max[2]) - 1.5).abs() < 1e-5);
}

#[test]
fn build_draw_list_skips_empty_instanced_prop() {
    let mut s = inputs();
    s.mesh_geometry.insert(0, unit_quad_mesh());
    s.instanced_props.push(InstancedProp {
        asset_id: 0,
        mesh: Some(0),
        material: None,
        texture: None,
        cull_distance: bits(0.0),
        instances: Vec::new(),
    });
    let list = build(&s);

    assert!(list.draw_objects.is_empty());
    assert!(list.instanced_clusters.is_empty());
}

#[test]
fn always_resident_mesh_forces_uncullable_bb_on_static_prop() {
    // A static prop with no dynamic flags would normally get a finite AABB
    // and be picked up by the streamer's `obj.cullable()` selection. When
    // its mesh is in the always_resident_meshes set (e.g. the auto-generated
    // skybox), the bb is forced to NaN so the prop opts out of frustum
    // culling and of mesh streaming. This is what the StreamingConfig
    // docstring promises for the skybox.
    let mut s = inputs();
    s.mesh_geometry.insert(0, unit_quad_mesh());
    let mut prop = make_prop();
    prop.mesh = Some(0);
    s.props.push(prop);
    s.world_mats = vec![carried(IDENTITY4)];
    s.always_resident_meshes.insert(0);
    let list = build(&s);

    assert_eq!(list.draw_objects.len(), 1);
    // UNCULLED_BB is all-NaN; `cullable()` returns false in that case.
    assert!(num(list.draw_objects[0].bb_min[0]).is_nan());
    assert!(num(list.draw_objects[0].bb_max[0]).is_nan());
    assert!(!list.draw_objects[0].cullable());
}

#[test]
fn static_prop_is_culled_by_its_moved_box() {
    let mut s = inputs();
    add_mesh(&mut s, 3);
    let mut still = make_prop();
    still.mesh = Some(3);
    let mut moving = still;
    moving.pickup = true;
    s.props = vec![still, moving];
    s.world_mats = vec![carried(translation([10.0, 0.0, 0.0])); 2];
    let list = build(&s);
    assert_eq!(list.draw_objects[0].bb_min.map(num), [9.5, -0.5, -0.5]);
    assert_eq!(list.draw_objects[0].bb_max.map(num), [10.5, 0.5, -0.5]);
    assert!(list.draw_objects[0].cullable());
    assert!(!list.draw_objects[1].cullable());
    // Each prop packs its own copy of the mesh, and the indices are rebased.
    assert_eq!(list.vertices.len(), 8);
    assert_eq!(list.indices, vec![0, 1, 2, 0, 2, 3, 4, 5, 6, 4, 6, 7]);
    assert_eq!(list.prop_draw_indices, vec![vec![0], vec![1]]);
    assert_eq!(list.mesh_id_to_draws[&3], vec![0, 1]);
    assert_eq!(list.draw_objects[1].vertex_offset, 4 * 56);
    assert_eq!(list.draw_objects[1].index_offset, 6);
}

#[test]
fn a_model_draws_each_of_its_meshes() {
    let mut s = inputs();
    add_mesh(&mut s, 3);
    add_mesh(&mut s, 4);
    s.material_map.insert(
        8,
        MaterialEntry { texture_slot: 2, normal_map_slot: 1, uniforms: uniforms(0.9) },
    );
    s.model_map.insert(
        5,
        vec![
            SubMeshRef { mesh: Some(3), material: Some(8) },
            SubMeshRef { mesh: Some(4), material: None },
        ],
    );
    let mut prop = make_prop();
    prop.model = Some(5);
    s.props = vec![prop];
    s.world_mats = vec![carried(IDENTITY4)];
    let list = build(&s);
    assert_eq!(list.draw_objects.len(), 2);
    assert_eq!(list.prop_draw_indices, vec![vec![0, 1]]);
    assert_eq!(list.draw_objects[0].texture_slot, 2);
    assert_eq!(list.draw_objects[0].normal_map_slot, 1);
    assert_eq!(num(list.draw_objects[0].material.roughness), 0.9);
    assert_eq!(num(list.draw_objects[1].material.roughness), 0.5);
}

#[test]
fn meshes_without_a_reference_are_drawn_at_the_origin() {
    let mut s = inputs();
    add_mesh(&mut s, 3);
    add_mesh(&mut s, 4);
    let mut prop = make_prop();
    prop.mesh = Some(3);
    s.props = vec![prop];
    s.world_mats = vec![carried(translation([1.0, 1.0, 1.0]))];
    s.texture_name_to_slot.insert(6, 5);
    s.room_geometry.push(RoomGeometry { asset_id: 8, texture: Some(6), mesh: unit_quad_mesh() });
    s.room_geometry.push(RoomGeometry { asset_id: 9, texture: None, mesh: unit_quad_mesh() });
    let list = build(&s);
    assert_eq!(list.draw_objects.len(), 4);
    assert_eq!(list.mesh_id_to_draws[&4], vec![1]);
    assert_eq!(list.draw_objects[1].model, carried(IDENTITY4));
    assert!(!list.draw_objects[1].cullable());
    assert_eq!(list.draw_objects[2].texture_slot, 5);
    assert_eq!(list.draw_objects[3].texture_slot, 0);
}

#[test]
fn every_missing_asset_is_named() {
    let with = |prop: Prop| {
        let mut s = inputs();
        add_mesh(&mut s, 3);
        s.model_map.insert(50, vec![SubMeshRef { mesh: None, material: None }]);
        s.model_map.insert(51, vec![SubMeshRef { mesh: Some(99), material: None }]);
        s.model_map.insert(52, vec![SubMeshRef { mesh: Some(3), material: Some(98) }]);
        s.props = vec![Prop { asset_id: 1, ..prop }];
        s.world_mats = vec![carried(IDENTITY4)];
        fail(&s)
    };
    let prop = make_prop();
    assert_eq!(with(prop), DrawListError::PropWithoutMesh { prop: 1 });
    assert_eq!(
        with(Prop { mesh: Some(99), ..prop }),
        DrawListError::UnknownMesh { prop: 1, mesh: 99 }
    );
    assert_eq!(
        with(Prop { mesh: Some(3), material: Some(98), ..prop }),
        DrawListError::UnknownMaterial { prop: 1, material: 98 }
    );
    assert_eq!(
        with(Prop { model: Some(7), ..prop }),
        DrawListError::UnknownModel { prop: 1, model: 7 }
    );
    assert_eq!(
        with(Prop { model: Some(50), ..prop }),
        DrawListError::SubMeshWithoutMesh { model: 50 }
    );
    assert_eq!(
        with(Prop { model: Some(51), ..prop }),
        DrawListError::UnknownSubMesh { model: 51, mesh: 99 }
    );
    assert_eq!(
        with(Prop { model: Some(52), ..prop }),
        DrawListError::UnknownSubMaterial { model: 52, material: 98 }
    );

    assert_eq!(
        with(Prop { mesh: Some(3), texture: Some(97), ..prop }),
        DrawListError::UnknownTexture { owner: 1, texture: 97 }
    );

    let batch = |mesh: u32, material: Option<u32>, texture: Option<u32>| {
        let mut s = inputs();
        add_mesh(&mut s, 3);
        s.instanced_props.push(InstancedProp {
            asset_id: 2,
            mesh: Some(mesh),
            material,
            texture,
            cull_distance: bits(0.0),
            instances: vec![carried(IDENTITY4)],
        });
        fail(&s)
    };
    assert_eq!(batch(99, None, None), DrawListError::UnknownInstancedMesh { prop: 2, mesh: 99 });
    assert_eq!(
        batch(3, Some(98), None),
        DrawListError::UnknownInstancedMaterial { prop: 2, material: 98 }
    );
    assert_eq!(
        batch(3, None, Some(97)),
        DrawListError::UnknownTexture { owner: 2, texture: 97 }
    );

    let mut s = inputs();
    s.room_geometry.push(RoomGeometry {
        asset_id: 5,
        texture: Some(77),
        mesh: unit_quad_mesh(),
    });
    assert_eq!(fail(&s), DrawListError::UnknownTexture { owner: 5, texture: 77 });
}

#[test]
fn a_material_stands_before_a_texture() {
    let mut s = inputs();
    add_mesh(&mut s, 3);
    s.material_map.insert(
        9,
        MaterialEntry { texture_slot: 4, normal_map_slot: 2, uniforms: uniforms(0.7) },
    );
    let mut prop = make_prop();
    prop.mesh = Some(3);
    prop.material = Some(9);
    // Not looked up: the material decides the look.
    prop.texture = Some(97);
    s.props = vec![prop];
    s.world_mats = vec![carried(IDENTITY4)];
    assert_eq!(build(&s).draw_objects[0].texture_slot, 4);
}

#[test]
fn alternates_are_packed_behind_their_mesh() {
    let mut s = inputs();
    add_mesh(&mut s, 3);
    s.mesh_geometry.get_mut(&3).unwrap().lod_alternates =
        vec![LodAlternate { switch_distance: bits(20.0), indices: vec![0, 1, 2] }];
    let mut prop = make_prop();
    prop.mesh = Some(3);
    s.props = vec![prop, prop];
    s.world_mats = vec![carried(IDENTITY4); 2];
    let list = build(&s);
    assert_eq!(list.indices.len(), 18);
    let lods = &list.draw_objects[1].lod_alternates;
    assert_eq!((lods[0].index_offset, lods[0].index_count), (15, 3));
    assert_eq!(num(lods[0].switch_distance), 20.0);
    assert_eq!(&list.indices[15..18], &[4, 5, 6]);
}

#[test]
fn bounds_cover_the_vertices() {
    let (lo, hi) = local_bounds(&unit_quad_mesh().vertices);
    assert_eq!(lo.map(num), [-0.5, -0.5, -0.5]);
    assert_eq!(hi.map(num), [0.5, 0.5, -0.5]);
    let (lo, _) = local_bounds(&Vec::new());
    assert!(num(lo[0]).is_nan());
}
