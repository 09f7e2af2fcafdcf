use concinnity_gfx::bvh::{Bvh, BvhItem};
use concinnity_gfx::float_bits::{FloatBits, Vec3, Vec4};
use concinnity_gfx::planar_reflection::{
    PlanarAssignment, assign_planar_slots, orient_plane_toward, reflected_visible_set, transpose,
};

fn bits(x: f32) -> FloatBits {
    FloatBits::new(x.to_bits())
}

fn num(x: FloatBits) -> f32 {
    f32::from_bits(x.bits)
}

fn middle(lo: Vec3, hi: Vec3) -> Vec3 {
    [0, 1, 2].map(|a| bits((num(lo[a]) + num(hi[a])) * 0.5))
}

fn extent(hi: FloatBits, lo: FloatBits) -> FloatBits {
    bits(num(hi) - num(lo))
}

fn length(p: [f32; 4]) -> f32 {
    (p[0] * p[0] + p[1] * p[1] + p[2] * p[2]).sqrt()
}

fn assign(planes: &[[f32; 4]], max_slots: usize) -> PlanarAssignment {
    let planes: Vec<Vec4> = planes.iter().map(|p| p.map(bits)).collect();
    let normalize = |p: Vec4| {
        let v = p.map(num);
        let len = length(v);
        if len < 1e-12 { p } else { v.map(|c| bits(c * (1.0 / len))) }
    };
    let len = |p: Vec4| bits(length(p.map(num)));
    let dot = |a: Vec4, b: Vec4| {
        let (a, b) = (a.map(num), b.map(num));
        bits(a[0] * b[0] + a[1] * b[1] + a[2] * b[2])
    };
    let gap = |a: FloatBits, b: FloatBits| bits(num(a) - num(b));
    assign_planar_slots(&planes, max_slots, &normalize, &len, &dot, &gap)
}

#[test]
fn assign_slots_dedups_coplanar_and_caps_distinct() {
    // Two coplanar panes (same wall), one distinct wall, plus a third distinct
    // wall that overflows a budget of 2. The coplanar pair shares slot 0, the
    // second wall takes slot 1, the third overflows to None.
    let wall_a0 = [0.0, 0.0, 1.0, -3.0];
    let wall_a1 = [0.0, 0.0, 1.0, -3.05]; // within OFFSET_EPS of a0
    let wall_b = [1.0, 0.0, 0.0, -5.0];
    let wall_c = [0.0, 1.0, 0.0, -1.0];
    let a = assign(&[wall_a0, wall_a1, wall_b, wall_c], 2);
    assert_eq!(a.representatives.len(), 2, "two slots allocated");
    assert_eq!(a.slots[0], Some(0));
    assert_eq!(a.slots[1], Some(0), "coplanar pane reuses slot 0");
    assert_eq!(a.slots[2], Some(1));
    assert_eq!(
        a.slots[3], None,
        "third distinct plane overflows the budget"
    );
}

#[test]
fn assign_slots_is_sign_invariant() {
    // A plane and its flip (opposite normal, opposite offset) are the same
    // surface and must share a slot.
    let front = [0.0, 0.0, 1.0, -3.0];
    let back = [0.0, 0.0, -1.0, 3.0];
    let a = assign(&[front, back], 4);
    assert_eq!(a.representatives.len(), 1, "flip is the same surface");
    assert_eq!(a.slots[0], Some(0));
    assert_eq!(a.slots[1], Some(0));
}

#[test]
fn assign_slots_overflow_still_reuses_existing_slot() {
    // With a budget of 1, a second distinct plane overflows, but a later plane
    // coplanar with slot 0 still maps to slot 0 (dedup precedes the cap).
    let a = assign(
        &[
            [0.0, 0.0, 1.0, -3.0],
            [1.0, 0.0, 0.0, -5.0], // overflow
            [0.0, 0.0, 1.0, -3.0], // coplanar with slot 0
        ],
        1,
    );
    assert_eq!(a.representatives.len(), 1);
    assert_eq!(a.slots[0], Some(0));
    assert_eq!(a.slots[1], None);
    assert_eq!(a.slots[2], Some(0));
}

#[test]
fn a_plane_without_a_normal_has_no_slot() {
    let a = assign(&[[0.0, 0.0, 0.0, 2.0], [0.0, 2.0, 0.0, -4.0]], 3);
    assert_eq!(a.slots, vec![None, Some(0)]);
    assert_eq!(a.representatives[0].map(num), [0.0, 1.0, 0.0, -2.0]);
}

#[test]
fn parallel_planes_at_a_distance_are_distinct() {
    let a = assign(&[[0.0, 0.0, 1.0, -3.0], [0.0, 0.0, 1.0, -3.5]], 4);
    assert_eq!(a.slots, vec![Some(0), Some(1)]);
}

fn toward(plane: [f32; 4], point: [f32; 3]) -> [f32; 4] {
    let side = |p: Vec4, q: Vec3| {
        let (p, q) = (p.map(num), q.map(num));
        bits(p[0] * q[0] + p[1] * q[1] + p[2] * q[2] + p[3])
    };
    orient_plane_toward(plane.map(bits), point.map(bits), &side).map(num)
}

fn normalize_plane(plane: [f32; 4]) -> [f32; 4] {
    let inv = 1.0 / length(plane);
    plane.map(|c| c * inv)
}

fn approx(a: f32, b: f32, eps: f32) -> bool {
    (a - b).abs() <= eps
}

#[test]
fn orient_plane_faces_the_camera() {
    // A vertical pane at z = -3 with normal pointing toward -z. A camera in
    // front of it (at +z relative to the pane) must flip the normal so the
    // kept (oblique-clip) side faces the viewer.
    let plane = normalize_plane([0.0, 0.0, -1.0, -3.0]); // n.p + d = 0 -> z = -3
    let cam = [0.0, 1.0, 0.0]; // in front of the pane (z = 0 > -3 side)
    let oriented = toward(plane, cam);
    let signed = oriented[0] * cam[0] + oriented[1] * cam[1] + oriented[2] * cam[2] + oriented[3];
    assert!(signed > 0.0, "camera must be on the +normal (kept) side");
    // It flipped the plane, which faced away from the camera.
    assert!(approx(oriented[2], 1.0, 1e-5), "normal flipped toward +z");
}

#[test]
fn orient_plane_is_noop_for_water_above_camera() {
    // Horizontal water plane y = 2, normal +y. A camera above it keeps the
    // plane unchanged, so water renders identically with the orientation step.
    let plane = normalize_plane([0.0, 1.0, 0.0, -2.0]);
    let cam = [3.0, 5.0, -1.0]; // above the plane
    let oriented = toward(plane, cam);
    for i in 0..4 {
        assert!(approx(oriented[i], plane[i], 1e-6), "component {i} unchanged");
    }
}

#[test]
fn orienting_turns_the_plane_to_the_point() {
    assert_eq!(toward([0.0, 0.0, 1.0, -3.0], [0.0; 3]), [0.0, 0.0, -1.0, 3.0]);
    assert_eq!(toward([0.0, 1.0, 0.0, -1.0], [0.0, 5.0, 0.0]), [0.0, 1.0, 0.0, -1.0]);
    // Turning it twice changes nothing.
    let once = toward([0.0, 0.0, 1.0, -3.0], [0.0; 3]);
    assert_eq!(toward(once, [0.0; 3]), once);
}

#[test]
fn transposing_swaps_rows_and_columns() {
    let mut m = [[bits(0.0); 4]; 4];
    for c in 0..4 {
        for r in 0..4 {
            m[c][r] = bits((10 * c + r) as f32);
        }
    }
    let t = transpose(&m);
    assert_eq!(num(t[1][3]), 31.0);
    assert_eq!(num(t[3][0]), 3.0);
    assert_eq!(transpose(&t), m);
}

fn tree(indices: &[u32]) -> Bvh {
    let items: Vec<BvhItem> = indices
        .iter()
        .map(|i| BvhItem {
            bb_min: [bits(-0.5); 3],
            bb_max: [bits(0.5); 3],
            cull_distance: bits(0.0),
            index: *i,
        })
        .collect();
    Bvh::build(&items, &middle, &extent)
}

#[test]
fn reflected_visible_set_reuses_the_output_buffer() {
    // The buffer is cleared each call, so reusing it across planes never leaks
    // a prior plane's culled indices.
    let bvh = tree(&[3]);
    let mut out = vec![99, 99, 99];
    let nothing = |_: Vec3, _: Vec3| false;
    let near = |_: Vec3, _: Vec3, _: FloatBits| true;
    reflected_visible_set(&bvh, &nothing, &near, &vec![], &mut out);
    assert!(
        out.is_empty(),
        "stale indices must be cleared before refill"
    );
}

#[test]
fn a_mirror_shows_the_culled_draws_and_the_fallback_behind_them() {
    let bvh = tree(&[9, 4, 6]);
    let mut out = Vec::new();
    let all = |_: Vec3, _: Vec3| true;
    let near = |_: Vec3, _: Vec3, _: FloatBits| true;
    reflected_visible_set(&bvh, &all, &near, &vec![7, 1], &mut out);
    assert_eq!(out, vec![4, 6, 9, 7, 1]);
}

type Matrix = [[f32; 4]; 4];

fn mul(a: Matrix, b: Matrix) -> Matrix {
    let mut out = [[0.0f32; 4]; 4];
    for col in 0..4 {
        for row in 0..4 {
            for k in 0..4 {
                out[col][row] += a[k][row] * b[col][k];
            }
        }
    }
    out
}

fn perspective(fov_y: f32, aspect: f32, near: f32, far: f32) -> Matrix {
    let ys = 1.0 / (fov_y / 2.0).tan();
    let xs = ys / aspect;
    let zs = far / (near - far);
    [
        [xs, 0.0, 0.0, 0.0],
        [0.0, ys, 0.0, 0.0],
        [0.0, 0.0, zs, -1.0],
        [0.0, 0.0, zs * near, 0.0],
    ]
}

fn reflection(plane: [f32; 4]) -> Matrix {
    let mut m = [[0.0f32; 4]; 4];
    for col in 0..3 {
        for row in 0..3 {
            let one = if col == row { 1.0 } else { 0.0 };
            m[col][row] = one - 2.0 * plane[row] * plane[col];
        }
    }
    for row in 0..3 {
        m[3][row] = -2.0 * plane[row] * plane[3];
    }
    m[3][3] = 1.0;
    m
}

/// A projection whose near plane is a plane of view space.
fn oblique(proj: Matrix, clip: [f32; 4]) -> Matrix {
    let sgn = |v: f32| {
        if v > 0.0 {
            1.0
        } else if v < 0.0 {
            -1.0
        } else {
            0.0
        }
    };
    let q = [
        sgn(clip[0]) / proj[0][0],
        sgn(clip[1]) / proj[1][1],
        -1.0,
        (1.0 + proj[2][2]) / proj[3][2],
    ];
    let denom = clip[0] * q[0] + clip[1] * q[1] + clip[2] * q[2] + clip[3] * q[3];
    let mut out = proj;
    for i in 0..4 {
        out[i][2] = clip[i] / denom;
    }
    out
}

/// Whether a box meets the volume of a view-projection with depths from zero to one.
fn meets(view_proj: Matrix, lo: [f32; 3], hi: [f32; 3]) -> bool {
    let row = |r: usize| [view_proj[0][r], view_proj[1][r], view_proj[2][r], view_proj[3][r]];
    let (x, y, z, w) = (row(0), row(1), row(2), row(3));
    let mut planes = vec![z];
    for axis in [x, y] {
        planes.push([w[0] + axis[0], w[1] + axis[1], w[2] + axis[2], w[3] + axis[3]]);
        planes.push([w[0] - axis[0], w[1] - axis[1], w[2] - axis[2], w[3] - axis[3]]);
    }
    planes.push([w[0] - z[0], w[1] - z[1], w[2] - z[2], w[3] - z[3]]);
    planes.iter().all(|p| {
        let far = |i: usize| if p[i] >= 0.0 { hi[i] } else { lo[i] };
        p[0] * far(0) + p[1] * far(1) + p[2] * far(2) + p[3] >= 0.0
    })
}

#[test]
fn reflected_frustum_captures_geometry_behind_the_camera() {
    // A vertical mirror at z = -5 (unit normal +z, facing the camera). The
    // camera sits at the origin looking down -z, toward the mirror. An object
    // BEHIND the camera (z = +3) is outside the main frustum, but its
    // reflection is visible in the mirror.
    let plane = [0.0, 0.0, 1.0, 5.0]; // n.p + d = 0 -> z = -5
    let proj = perspective(1.2, 1.6, 0.1, 100.0);
    // The view is the identity and a reflection is its own inverse, so the plane in
    // the mirrored view is the plane under the transposed reflection.
    let view = reflection(plane);
    let mut clip = [0.0f32; 4];
    for row in 0..4 {
        for k in 0..4 {
            clip[row] += view[row][k] * plane[k];
        }
    }
    let view_proj = mul(oblique(proj, clip), view);

    // One cullable object behind the camera.
    let items = vec![BvhItem {
        bb_min: [-0.5, -0.5, 2.5].map(bits),
        bb_max: [0.5, 0.5, 3.5].map(bits),
        cull_distance: bits(0.0),
        index: 0,
    }];
    let bvh = Bvh::build(&items, &middle, &extent);
    let in_range = |_: Vec3, _: Vec3, _: FloatBits| true;

    // The main camera rejects it (behind the near plane).
    let main = |lo: Vec3, hi: Vec3| meets(proj, lo.map(num), hi.map(num));
    let mut main_visible: Vec<u32> = Vec::new();
    reflected_visible_set(&bvh, &main, &in_range, &vec![], &mut main_visible);
    assert!(
        !main_visible.contains(&0),
        "object behind the camera must be outside the main frustum"
    );

    // The reflected frustum captures it, and the always-draw fallback is
    // appended after the culled set.
    let mirrored = |lo: Vec3, hi: Vec3| meets(view_proj, lo.map(num), hi.map(num));
    let always = vec![7u32];
    let mut out: Vec<u32> = Vec::new();
    reflected_visible_set(&bvh, &mirrored, &in_range, &always, &mut out);
    assert!(
        out.contains(&0),
        "object behind the camera must be visible in the reflection"
    );
    assert_eq!(
        out.last(),
        Some(&7),
        "always-draw fallback appended after the culled set"
    );
}
