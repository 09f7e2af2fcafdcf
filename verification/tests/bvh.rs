use concinnity_gfx::bvh::{Bvh, BvhItem, Node, partition_draw_objects};
use concinnity_gfx::float_bits::{FloatBits, Vec3};
use concinnity_gfx::render_types::{DrawObject, MaterialUniforms};

fn bits(x: f32) -> FloatBits {
    FloatBits::new(x.to_bits())
}

fn num(x: FloatBits) -> f32 {
    f32::from_bits(x.bits)
}

fn vec3(v: [f32; 3]) -> Vec3 {
    [bits(v[0]), bits(v[1]), bits(v[2])]
}

fn item(idx: u32, min: [f32; 3], max: [f32; 3]) -> BvhItem {
    BvhItem {
        bb_min: vec3(min),
        bb_max: vec3(max),
        cull_distance: bits(0.0),
        index: idx,
    }
}

fn centre(lo: Vec3, hi: Vec3) -> Vec3 {
    [0, 1, 2].map(|a| bits((num(lo[a]) + num(hi[a])) * 0.5))
}

fn extent(hi: FloatBits, lo: FloatBits) -> FloatBits {
    bits(num(hi) - num(lo))
}

fn build(items: &[BvhItem]) -> Bvh {
    Bvh::build(&items.to_vec(), &centre, &extent)
}

// The view of an identity view-projection: the clip cube with depth from zero to one.
fn in_clip_cube(lo: Vec3, hi: Vec3) -> bool {
    let low = [-1.0f32, -1.0, 0.0];
    (0..3).all(|a| num(hi[a]) >= low[a] && num(lo[a]) <= 1.0)
}

fn in_range_of(eye: [f32; 3]) -> impl Fn(Vec3, Vec3, FloatBits) -> bool {
    move |lo, hi, cutoff| {
        let mut sq = 0.0f32;
        for a in 0..3 {
            let c = eye[a].clamp(num(lo[a]), num(hi[a]));
            sq += (eye[a] - c) * (eye[a] - c);
        }
        sq <= num(cutoff) * num(cutoff)
    }
}

fn collect(bvh: &Bvh) -> Vec<u32> {
    let mut out = bvh.query(&in_clip_cube, &in_range_of([0.0, 0.0, 0.0]));
    out.sort();
    out
}

#[test]
fn empty_input_yields_empty_bvh() {
    let bvh = build(&[]);
    assert!(bvh.root.is_none());
    assert_eq!(bvh.nodes.len(), 0);
    let hits = bvh.query(&in_clip_cube, &in_range_of([0.0, 0.0, 0.0])).len();
    assert_eq!(hits, 0);
}

#[test]
fn single_item_creates_one_leaf() {
    let bvh = build(&[item(7, [-0.1, -0.1, -0.1], [0.1, 0.1, 0.1])]);
    assert!(bvh.root.is_some());
    assert_eq!(bvh.nodes.len(), 1);
    assert_eq!(collect(&bvh), vec![7]);
}

#[test]
fn visible_and_invisible_items_separate() {
    let bvh = build(&[
        item(0, [-0.5, -0.5, -0.5], [0.5, 0.5, 0.5]),
        item(1, [5.0, -0.5, -0.5], [6.0, 0.5, 0.5]),
        item(2, [-0.5, -0.5, -0.5], [0.5, 0.5, 0.5]),
    ]);
    assert_eq!(collect(&bvh), vec![0, 2]);
}

#[test]
fn distance_cutoff_prunes_far_leaf() {
    let mut a = item(0, [-0.5, -0.5, -0.5], [0.5, 0.5, 0.5]);
    a.cull_distance = bits(1.0);
    let mut b = item(1, [-0.5, -0.5, -0.5], [0.5, 0.5, 0.5]);
    b.cull_distance = bits(0.0);
    let bvh = build(&[a, b]);
    // Camera 10 units away: `a` should drop, `b` stays.
    let mut out = bvh.query(&in_clip_cube, &in_range_of([10.0, 0.0, 0.0]));
    out.sort();
    assert_eq!(out, vec![1]);
}

#[test]
fn many_items_all_visible_inside_frustum() {
    let mut items = Vec::new();
    for i in 0..64 {
        let x = (i as f32) * 0.001 - 0.5;
        items.push(item(i, [x, -0.5, -0.5], [x + 0.05, 0.5, 0.5]));
    }
    let bvh = build(&items);
    let got = collect(&bvh);
    assert_eq!(got.len(), 64);
}

#[test]
fn frustum_rejecting_root_emits_nothing() {
    let bvh = build(&[
        item(0, [10.0, -0.5, -0.5], [11.0, 0.5, 0.5]),
        item(1, [10.0, -0.5, -0.5], [11.0, 0.5, 0.5]),
    ]);
    assert!(collect(&bvh).is_empty());
}

// A tree over n items has a leaf for each and an inner node for each join, and the
// root bounds every item.
#[test]
fn root_bounds_every_item() {
    let items: Vec<BvhItem> = (0..9)
        .map(|i| {
            let x = i as f32;
            item(i, [x, -x, 0.0], [x + 1.0, 1.0, 2.0 * x])
        })
        .collect();
    let bvh = build(&items);
    assert_eq!(bvh.nodes.len(), 17);
    let leaves = bvh.nodes.iter().filter(|n| matches!(n, Node::Leaf { .. })).count();
    assert_eq!(leaves, 9);
    match bvh.nodes[bvh.root.unwrap() as usize] {
        Node::Internal { bb, .. } => {
            assert_eq!(bb.min.map(num), [0.0, -8.0, 0.0]);
            assert_eq!(bb.max.map(num), [9.0, 1.0, 16.0]);
        }
        Node::Leaf { .. } => panic!("the root of nine items is an inner node"),
    }
}

fn draw(lo: [f32; 3], hi: [f32; 3]) -> DrawObject {
    let z = bits(0.0);
    DrawObject {
        vertex_offset: 0,
        vertex_count: 0,
        index_offset: 0,
        index_count: 0,
        base_vertex: 0,
        model: [[z; 4]; 4],
        texture_slot: 0,
        normal_map_slot: 0,
        material: MaterialUniforms {
            roughness: z,
            metallic: z,
            macro_variation: z,
            terrain_blend: z,
            tint: [z; 3],
            emissive: [z; 3],
            secondary_blend_sharpness: z,
            albedo_secondary_index: 0,
            normal_secondary_index: 0,
            emissive_map_index: 0,
            orm_map_index: 0,
            opacity: z,
            transparent: 0,
            see_through: 0,
        },
        visible: true,
        resident: true,
        bb_min: vec3(lo),
        bb_max: vec3(hi),
        cull_distance: z,
        lod_alternates: Vec::new(),
    }
}

// Draws without a finite box are always drawn; the others are found through the tree.
#[test]
fn draws_without_a_box_are_never_culled() {
    let n = f32::NAN;
    let draws = vec![
        draw([0.0; 3], [0.5; 3]),
        draw([n; 3], [n; 3]),
        draw([5.0; 3], [6.0; 3]),
    ];
    let (bvh, always) = partition_draw_objects(&draws, &centre, &extent);
    assert_eq!(always, vec![1]);
    assert_eq!(collect(&bvh), vec![0]);
}

// Each item that passes both tests is given once, also where two share an index.
#[test]
fn a_query_gives_what_a_scan_would() {
    let mut items = Vec::new();
    for i in 0..60u32 {
        let at = [(i % 5) as f32 - 2.0, (i / 5 % 4) as f32 - 1.5, (i / 20) as f32];
        let mut it = item(i / 2, at, [at[0] + 0.4, at[1] + 0.4, at[2] + 0.4]);
        it.cull_distance = bits((i % 3) as f32);
        items.push(it);
    }
    let near = in_range_of([0.5, 0.0, 0.0]);
    let mut scanned: Vec<u32> = items
        .iter()
        .filter(|it| in_clip_cube(it.bb_min, it.bb_max))
        .filter(|it| {
            num(it.cull_distance) <= 0.0 || near(it.bb_min, it.bb_max, it.cull_distance)
        })
        .map(|it| it.index)
        .collect();
    let mut found = build(&items).query(&in_clip_cube, &near);
    scanned.sort();
    found.sort();
    assert!(!found.is_empty() && found.len() < items.len());
    assert_eq!(found, scanned);
}
