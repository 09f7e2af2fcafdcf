use concinnity_gfx::chunk_coord::ChunkCoord;
use concinnity_gfx::float_bits::FloatBits;
use concinnity_gfx::render_types::{MaterialEntry, MaterialUniforms};
use concinnity_gfx::streaming::{
    BlockType, ChunkStreamState, DiskTextureLocator, HeadroomInputs, MeshSeedRegion,
    MeshStreamStart, PayloadLocator, VoxelWorld, block_type_to_chunk, blobs_to_probe,
    chunk_headroom, chunk_reserve_count, disk_texture_locators, retire_frame,
    setup_mesh_streaming, setup_normal_map_streaming, setup_texture_streaming,
    setup_voxel_world_streaming, stream_draw,
};
use std::collections::HashMap;

fn world(view_radius: u32, impostor_radius: u32) -> VoxelWorld {
    VoxelWorld {
        view_radius,
        impostor_radius,
        chunk_blocks: [16, 64, 16],
        impostor_step: 4,
        palette: Vec::new(),
        material: None,
    }
}

// The chunk record reserve must cover the streamer's worst-case
// residency, or resident chunks past the reserve get no GPU-driven draw record
// and render invisibly. The streamer retains a chunk until its Chebyshev
// distance exceeds `evict_radius = far_radius + EVICT_HYSTERESIS(=2)` (see
// gfx::chunk_window), with `far_radius = impostor_radius()` (floored at
// view_radius), so peak residency = `(2*(far_radius+2)+1)^2`. This must hold for
// impostors-on AND impostors-off worlds (the default is impostor_radius = 0).
#[test]
fn chunk_reserve_covers_streamer_evict_window() {
    for (view, impostor) in [(5u32, 0u32), (2, 6), (8, 0), (3, 10), (0, 0), (32, 96)] {
        let vw = world(view, impostor);
        // `impostor_radius()` floors at `view_radius()`, so this is the real
        // far radius the streamer uses whether or not impostors are enabled.
        let far = vw.impostor_radius() as usize;
        let evict_span = 2 * (far + 2) + 1;
        let bound = (evict_span * evict_span).min(65536);
        assert!(
            chunk_reserve_count(&vw) >= bound,
            "view={view} impostor={impostor}: reserve {} < streamer evict window {}",
            chunk_reserve_count(&vw),
            bound,
        );
    }
}

#[test]
fn far_radius_never_lies_within_the_view() {
    assert_eq!(world(5, 2).impostor_radius(), 5);
    assert_eq!(world(5, 9).impostor_radius(), 9);
    assert_eq!(chunk_reserve_count(&world(32, 96)), 197 * 197);
    assert_eq!(chunk_reserve_count(&world(200, 0)), 65536);
}

#[test]
fn headroom_is_rounded_up_and_bounded() {
    let h = HeadroomInputs {
        near_radius: 1,
        far_radius: 1,
        chunk_blocks: [4, 4, 4],
        impostor_step: 2,
        vertex_bytes: 56,
    };
    let (vtx, idx) = chunk_headroom(&h);
    // Five by five full meshes, and impostors in the ring round them.
    assert_eq!((vtx, idx), (25 * 14336 + 24 * 2688, 25 * 1536 + 24 * 288));
    let (v2, i2) = chunk_headroom(&HeadroomInputs { far_radius: 400, near_radius: 400, ..h });
    assert!(v2 <= 536_870_912 && i2 <= 536_870_912);
    assert!(v2 >= vtx && i2 >= idx);
}

fn bits4(x: f32) -> [FloatBits; 4] {
    [FloatBits::new(x.to_bits()); 4]
}

#[test]
fn a_block_face_falls_back_to_the_block() {
    let z = FloatBits::new(0);
    let o = FloatBits::new(1.0f32.to_bits());
    let bt = BlockType {
        solid: true,
        uv_min: [z, z],
        uv_max: [o, o],
        uv_top: Some(bits4(0.5)),
        uv_bottom: None,
        uv_side: None,
    };
    let c = block_type_to_chunk(&bt);
    assert!(c.solid);
    assert_eq!(c.uv_top, bits4(0.5));
    assert_eq!(c.uv_bottom, [z, z, o, o]);
    assert_eq!(c.uv_side, [z, z, o, o]);
}

fn locator(blob_index: u32, offset: u64) -> PayloadLocator {
    PayloadLocator { blob_index, offset, len: 7 }
}

#[test]
fn payloads_are_located_behind_their_section() {
    let locs = vec![locator(2, 10), locator(1, 0), locator(2, 30)];
    assert_eq!(blobs_to_probe(&locs), vec![2, 1]);
    let starts = HashMap::from([(1u32, 100u64), (2, 1000)]);
    let disk: Vec<DiskTextureLocator> = disk_texture_locators(&locs, &starts).expect("located");
    let offsets: Vec<(u32, u64, u64)> =
        disk.iter().map(|d| (d.blob_index, d.file_offset, d.len)).collect();
    assert_eq!(offsets, vec![(2, 1010, 7), (1, 100, 7), (2, 1030, 7)]);
    assert_eq!(disk_texture_locators(&locs, &HashMap::from([(2u32, 0u64)])).err(), Some(1));
}

#[test]
fn pools_stream_only_when_configured() {
    assert_eq!(setup_texture_streaming(false, true, true, 3, 0), None);
    assert_eq!(setup_texture_streaming(true, false, true, 3, 0), None);
    assert_eq!(setup_texture_streaming(true, true, true, 3, 0), Some(vec![0, 1, 2]));
    assert_eq!(setup_texture_streaming(true, true, false, 3, 2), Some(vec![0, 1]));
    // Slot zero is the flat normal map, which does not stream.
    assert_eq!(setup_normal_map_streaming(true, true, true, 2, 0), Some(vec![1, 2]));
}

#[test]
fn meshes_start_in_their_seed_or_evicted() {
    let seed = MeshSeedRegion { vtx_offset: 1, vtx_bytes: 2, idx_offset: 3, idx_bytes: 4 };
    match setup_mesh_streaming(true, true, 2, Some(seed), vec![4, 6]) {
        Some(MeshStreamStart::Seed(s)) => assert_eq!((s.vtx_offset, s.idx_bytes), (1, 4)),
        other => panic!("expected a seed, got {:?}", other),
    }
    match setup_mesh_streaming(true, true, 2, None, vec![4, 6]) {
        Some(MeshStreamStart::Evict(draws)) => assert_eq!(draws, vec![4, 6]),
        other => panic!("expected an eviction, got {:?}", other),
    }
    assert!(setup_mesh_streaming(true, true, 0, None, vec![]).is_none());
}

#[test]
fn evicted_space_is_kept_until_the_frames_in_flight_retire() {
    assert_eq!(retire_frame(100, 3), 103);
    assert_eq!(stream_draw(&vec![5, 9], 1), Some(9));
    assert_eq!(stream_draw(&vec![5, 9], 2), None);
}

#[test]
fn resident_chunks_follow_the_render_origin() {
    let mut cs = ChunkStreamState::new();
    cs.add(ChunkCoord::new(1, 0), 10);
    cs.add(ChunkCoord::new(-2, 3), 11);
    // The camera has not left the origin chunk.
    assert!(cs.rebase(ChunkCoord::new(0, 0)).is_empty());
    let mut moved: Vec<(usize, i64, i64)> =
        cs.rebase(ChunkCoord::new(1, 1)).iter().map(|p| (p.draw, p.dx, p.dz)).collect();
    moved.sort();
    assert_eq!(moved, vec![(10, 0, -1), (11, -3, 2)]);
    // What has left the window gives its draw back, once.
    assert_eq!(cs.evict(&vec![ChunkCoord::new(1, 0), ChunkCoord::new(9, 9)]), vec![10]);
    assert!(cs.evict(&vec![ChunkCoord::new(1, 0)]).is_empty());
}

fn plain() -> MaterialUniforms {
    let z = FloatBits::new(0);
    MaterialUniforms {
        roughness: z,
        metallic: z,
        macro_variation: z,
        terrain_blend: z,
        tint: [z; 3],
        emissive: [z; 3],
        secondary_blend_sharpness: z,
        albedo_secondary_index: 0,
        normal_secondary_index: 0,
        emissive_map_index: 0,
        orm_map_index: 0,
        opacity: z,
        transparent: 0,
        see_through: 0,
    }
}

fn grass() -> BlockType {
    let half = FloatBits::new(0.5f32.to_bits());
    BlockType {
        solid: true,
        uv_min: [FloatBits::new(0); 2],
        uv_max: [half; 2],
        uv_top: Some([half; 4]),
        uv_bottom: None,
        uv_side: None,
    }
}

#[test]
fn a_voxel_world_streams_only_to_a_backend() {
    let vw = world(1, 0);
    let none = setup_voxel_world_streaming(None, true, &HashMap::new(), &HashMap::new(), plain());
    assert!(none.is_none());
    let none =
        setup_voxel_world_streaming(Some(&vw), false, &HashMap::new(), &HashMap::new(), plain());
    assert!(none.is_none());
}

#[test]
fn a_voxel_world_resolves_its_palette_look_and_headroom() {
    let mut vw = world(1, 3);
    vw.chunk_blocks = [2, 2, 2];
    vw.impostor_step = 2;
    vw.palette = vec![7, 99];
    vw.material = Some(5);
    let blocks = HashMap::from([(7, grass())]);
    let materials = HashMap::from([(
        5,
        MaterialEntry { texture_slot: 3, normal_map_slot: 4, uniforms: plain() },
    )]);
    let setup =
        setup_voxel_world_streaming(Some(&vw), true, &blocks, &materials, plain()).unwrap();
    assert!(setup.palette[0].solid);
    assert_eq!(setup.palette[0].uv_top, grass().uv_top.unwrap());
    // A palette entry that is not known is air.
    assert!(!setup.palette[1].solid);
    assert_eq!((setup.look.texture_slot, setup.look.normal_map_slot), (3, 4));
    assert_eq!((setup.near_radius, setup.far_radius), (1, 3));
    // 25 near chunks of 16 faces, 96 impostors of 1 cell and 4 skirt quads.
    assert_eq!(setup.vtx_bytes, 25 * 64 * 56 + 96 * 5 * 4 * 56);
    assert_eq!(setup.idx_bytes, 25 * 16 * 6 * 4 + 96 * 5 * 6 * 4);
    vw.material = Some(6);
    let setup =
        setup_voxel_world_streaming(Some(&vw), true, &blocks, &materials, plain()).unwrap();
    assert_eq!((setup.look.texture_slot, setup.look.normal_map_slot), (0, 0));
}

#[test]
fn absurd_radii_are_capped() {
    let mut vw = world(0x7000_0000, 0x7fff_fffd);
    vw.chunk_blocks = [u32::MAX; 3];
    vw.impostor_step = 1;
    let setup =
        setup_voxel_world_streaming(Some(&vw), true, &HashMap::new(), &HashMap::new(), plain())
            .unwrap();
    assert_eq!((setup.vtx_bytes, setup.idx_bytes), (512 * 1024 * 1024, 512 * 1024 * 1024));
}
