use concinnity_gfx::float_bits::{FloatBits, Mat4, Vec3};
use concinnity_gfx::render_types::{DrawObject, LodSlice, MaterialUniforms, Vertex, VERTEX_BYTES};
use concinnity_gfx::stream_prep::{
    AUTO_SEED_MAX_TRIANGLES, Pool, draw_object_position, gather_auto_seed_triangles,
    mesh_stream_inputs, occupancy, payload_sizes, pool_centers, stream_flags,
    strip_streamed_lods,
};

fn bits(x: f32) -> FloatBits {
    FloatBits::new(x.to_bits())
}

fn num(v: Vec3) -> [f32; 3] {
    v.map(|x| f32::from_bits(x.bits))
}

fn centre(lo: Vec3, hi: Vec3) -> Vec3 {
    let (lo, hi) = (num(lo), num(hi));
    [0, 1, 2].map(|i| bits((lo[i] + hi[i]) * 0.5))
}

fn material() -> MaterialUniforms {
    MaterialUniforms {
        roughness: bits(0.5),
        metallic: bits(0.0),
        macro_variation: bits(0.0),
        terrain_blend: bits(0.0),
        tint: [bits(1.0); 3],
        emissive: [bits(0.0); 3],
        secondary_blend_sharpness: bits(0.0),
        albedo_secondary_index: 0,
        normal_secondary_index: 0,
        emissive_map_index: 0,
        orm_map_index: 0,
        opacity: bits(1.0),
        transparent: 0,
        see_through: 0,
    }
}

fn placed(x: f32, y: f32, z: f32) -> Mat4 {
    let mut m = [[bits(0.0); 4]; 4];
    for i in 0..4 {
        m[i][i] = bits(1.0);
    }
    m[3] = [bits(x), bits(y), bits(z), bits(1.0)];
    m
}

fn draw(first_vertex: usize, vertices: usize, index_offset: usize, indices: usize) -> DrawObject {
    DrawObject {
        vertex_offset: first_vertex * VERTEX_BYTES,
        vertex_count: vertices,
        index_offset,
        index_count: indices,
        base_vertex: 0,
        model: placed(7.0, 8.0, 9.0),
        texture_slot: 0,
        normal_map_slot: 0,
        material: material(),
        visible: true,
        resident: true,
        bb_min: [bits(0.0), bits(0.0), bits(0.0)],
        bb_max: [bits(2.0), bits(4.0), bits(6.0)],
        cull_distance: bits(0.0),
        lod_alternates: vec![LodSlice {
            index_offset: 0,
            index_count: 0,
            switch_distance: bits(10.0),
        }],
    }
}

fn unbounded(d: DrawObject) -> DrawObject {
    DrawObject { bb_max: [bits(f32::INFINITY); 3], ..d }
}

fn vertices(n: usize) -> Vec<Vertex> {
    (0..n)
        .map(|i| Vertex {
            pos: [bits(i as f32), bits(0.0), bits(0.0)],
            normal: [bits(0.0); 3],
            tangent: [bits(0.0); 3],
            color: [bits(0.0); 3],
            uv: [bits(0.0); 2],
        })
        .collect()
}

#[test]
fn a_draw_is_scored_by_its_box_or_its_place() {
    assert_eq!(num(draw_object_position(&draw(0, 3, 0, 3), &centre)), [1.0, 2.0, 3.0]);
    assert_eq!(num(draw_object_position(&unbounded(draw(0, 3, 0, 3)), &centre)), [7.0, 8.0, 9.0]);
}

#[test]
fn pool_items_know_the_draws_that_sample_them() {
    let mut a = draw(0, 3, 0, 3);
    a.texture_slot = 1;
    a.normal_map_slot = 2;
    let mut b = unbounded(draw(0, 3, 0, 3));
    b.texture_slot = 1;
    let mut c = draw(0, 3, 0, 3);
    c.texture_slot = 9;
    let draws = vec![a, b, c];
    let albedo = pool_centers(&draws, Pool::Albedo, 2, &centre);
    assert!(albedo[0].is_empty());
    assert_eq!(albedo[1].iter().map(|v| num(*v)).collect::<Vec<_>>(), vec![
        [1.0, 2.0, 3.0],
        [7.0, 8.0, 9.0]
    ]);
    // Normal-map slot zero never streams, so item zero is slot one.
    let normals = pool_centers(&draws, Pool::NormalMap, 2, &centre);
    assert!(normals[0].is_empty());
    assert_eq!(normals[1].len(), 1);
}

#[test]
fn streamed_draws_carry_their_own_geometry() {
    let verts = vertices(7);
    let indices: Vec<u32> = vec![0, 1, 2, 3, 5, 6];
    let draws = vec![
        draw(0, 3, 0, 3),
        draw(3, 4, 3, 3),
        unbounded(draw(0, 3, 0, 3)),
        draw(6, 9, 3, 3),
    ];
    let inputs = mesh_stream_inputs(&draws, &verts, &indices, &centre);
    assert_eq!(inputs.draw_indices, vec![0, 1]);
    assert_eq!(num(inputs.centers[1]), [1.0, 2.0, 3.0]);
    assert_eq!(inputs.payloads[1].indices, vec![0, 2, 3]);
    assert_eq!(inputs.payloads[1].vertices.len(), 4);
    assert_eq!(num(inputs.payloads[1].vertices[0].pos), [3.0, 0.0, 0.0]);
    // Placed back at its first vertex, a payload reads what the draw read.
    for (i, index) in inputs.payloads[1].indices.iter().enumerate() {
        assert_eq!(*index as u32 + 3, indices[3 + i]);
    }
    assert_eq!(payload_sizes(&inputs.payloads), vec![(3 * 56, 12), (4 * 56, 12)]);
}

#[test]
fn streamed_draws_are_flagged_and_lose_their_alternates() {
    assert_eq!(stream_flags(4, &vec![2, 0, 9]), vec![true, false, true, false]);
    let mut draws = vec![draw(0, 3, 0, 3), draw(0, 3, 0, 3)];
    strip_streamed_lods(&mut draws, &vec![1, 5]);
    assert_eq!(draws[0].lod_alternates.len(), 1);
    assert_eq!(draws[1].lod_alternates.len(), 0);
}

#[test]
fn small_scenes_seed_probes_from_their_triangles() {
    let indices: Vec<u32> = vec![0, 1, 2, 2, 1, 3, 4, 5, 99];
    let mut shifted = draw(0, 3, 0, 3);
    shifted.base_vertex = 2;
    let draws = vec![
        draw(0, 4, 0, 6),
        unbounded(draw(0, 3, 0, 3)),
        draw(4, 3, 6, 3),
        draw(0, 3, 8, 3),
        shifted,
        draw(0, 3, usize::MAX, 3),
    ];
    let found = gather_auto_seed_triangles(&draws, 6, &indices).unwrap();
    let found: Vec<(usize, (usize, usize, usize))> =
        found.iter().map(|t| (t.draw, t.corners)).collect();
    assert_eq!(found, vec![(0, (0, 1, 2)), (0, (2, 1, 3)), (4, (2, 3, 4))]);
}

#[test]
fn empty_and_huge_scenes_seed_nothing() {
    assert!(gather_auto_seed_triangles(&vec![], 6, &vec![]).is_none());
    assert!(gather_auto_seed_triangles(&vec![unbounded(draw(0, 3, 0, 3))], 6, &vec![0, 1, 2])
        .is_none());
    let huge = draw(0, 3, 0, 3 * (AUTO_SEED_MAX_TRIANGLES + 1));
    assert!(gather_auto_seed_triangles(&vec![huge], 6, &vec![0, 1, 2]).is_none());
}

#[test]
fn finite_boxes_occupy_space() {
    let boxes = occupancy(&vec![draw(0, 3, 0, 3), unbounded(draw(0, 3, 0, 3))]);
    assert_eq!(boxes.len(), 1);
    assert_eq!(num(boxes[0].1), [2.0, 4.0, 6.0]);
}
