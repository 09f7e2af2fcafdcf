//! What streaming and probe seeding take from the draw list: draw positions, the
//! geometry of streamed draws, and the triangles of small scenes.

use crate::float_bits::{Mat4, Vec3};
use crate::render_types::{
    DrawObject, VERTEX_BYTES, Vertex, finite_box, is_finite_box,
};
use vstd::prelude::*;

verus! {

/// Whether `pos` is where a draw is scored: the centre of a finite box, and the
/// translation of the model matrix otherwise.
pub open spec fn is_position<F: Fn(Vec3, Vec3) -> Vec3>(
    centre: F,
    obj: DrawObject,
    pos: Vec3,
) -> bool {
    if finite_box(obj.bb_min, obj.bb_max) {
        call_ensures(centre, (obj.bb_min, obj.bb_max), pos)
    } else {
        &&& pos[0] == obj.model[3][0]
        &&& pos[1] == obj.model[3][1]
        &&& pos[2] == obj.model[3][2]
    }
}

/// The point a draw is scored by. `centre` gives the midpoint of a box.
pub fn draw_object_position<F: Fn(Vec3, Vec3) -> Vec3>(obj: &DrawObject, centre: &F) -> (r: Vec3)
    requires
        forall|lo: Vec3, hi: Vec3| call_requires(*centre, (lo, hi)),
    ensures
        is_position(*centre, *obj, r),
{
    if is_finite_box(obj.bb_min, obj.bb_max) {
        centre(obj.bb_min, obj.bb_max)
    } else {
        [obj.model[3][0], obj.model[3][1], obj.model[3][2]]
    }
}

/// Which pool of texture slots draws are grouped by.
#[derive(Debug, Clone, Copy, PartialEq, Eq, Structural)]
pub enum Pool {
    Albedo,
    /// The slots from one on; slot zero is a fallback that never streams.
    NormalMap,
}

/// The pool item a draw samples, if it samples one.
pub open spec fn pool_item(pool: Pool, obj: DrawObject) -> Option<int> {
    match pool {
        Pool::Albedo => Some(obj.texture_slot as int),
        Pool::NormalMap => if obj.normal_map_slot >= 1 {
            Some(obj.normal_map_slot - 1)
        } else {
            None
        },
    }
}

/// The draws among the first `k` that sample pool item `item`.
pub open spec fn samplers(draws: Seq<DrawObject>, pool: Pool, item: int, k: nat) -> Seq<int>
    decreases k,
{
    if k == 0 {
        Seq::empty()
    } else {
        let before = samplers(draws, pool, item, (k - 1) as nat);
        if pool_item(pool, draws[k - 1]) == Some(item) {
            before.push(k - 1)
        } else {
            before
        }
    }
}

/// Whether a list holds the positions of the given draws, in order.
pub open spec fn are_positions<F: Fn(Vec3, Vec3) -> Vec3>(
    centre: F,
    draws: Seq<DrawObject>,
    picked: Seq<int>,
    list: Seq<Vec3>,
) -> bool {
    &&& list.len() == picked.len()
    &&& forall|i: int|
        0 <= i < picked.len() ==> is_position(centre, draws[picked[i]], #[trigger] list[i])
}

/// For every item of a pool, the positions of the draws that sample it.
pub fn pool_centers<F: Fn(Vec3, Vec3) -> Vec3>(
    draws: &Vec<DrawObject>,
    pool: Pool,
    items: usize,
    centre: &F,
) -> (r: Vec<Vec<Vec3>>)
    requires
        forall|lo: Vec3, hi: Vec3| call_requires(*centre, (lo, hi)),
    ensures
        r@.len() == items,
        forall|s: int|
            0 <= s < items ==> are_positions(
                *centre,
                draws@,
                samplers(draws@, pool, s, draws@.len()),
                (#[trigger] r@[s])@,
            ),
{
    let mut out: Vec<Vec<Vec3>> = Vec::new();
    let mut s: usize = 0;
    while s < items
        invariant
            s <= items,
            out@.len() == s,
            forall|j: int| 0 <= j < s ==> (#[trigger] out@[j])@ == Seq::<Vec3>::empty(),
        decreases items - s,
    {
        out.push(Vec::new());
        s = s + 1;
    }
    let mut k: usize = 0;
    while k < draws.len()
        invariant
            k <= draws@.len(),
            out@.len() == items,
            forall|lo: Vec3, hi: Vec3| call_requires(*centre, (lo, hi)),
            forall|s: int|
                0 <= s < items ==> are_positions(
                    *centre,
                    draws@,
                    samplers(draws@, pool, s, k as nat),
                    (#[trigger] out@[s])@,
                ),
        decreases draws@.len() - k,
    {
        let obj: &DrawObject = &draws[k];
        let item: Option<usize> = match pool {
            Pool::Albedo => Some(obj.texture_slot),
            Pool::NormalMap => if obj.normal_map_slot >= 1 {
                Some(obj.normal_map_slot - 1)
            } else {
                None
            },
        };
        let ghost was = out@;
        match item {
            Some(slot) => {
                if slot < out.len() {
                    let pos: Vec3 = draw_object_position(obj, centre);
                    let mut list: Vec<Vec3> = Vec::new();
                    std::mem::swap(&mut list, &mut out[slot]);
                    list.push(pos);
                    out.set(slot, list);
                    assert(out@[slot as int]@ == was[slot as int]@.push(pos));
                }
            },
            None => {},
        }
        proof {
            assert forall|s: int| 0 <= s < items implies are_positions(
                *centre,
                draws@,
                samplers(draws@, pool, s, (k + 1) as nat),
                (#[trigger] out@[s])@,
            ) by {
                let before = samplers(draws@, pool, s, k as nat);
                let now = samplers(draws@, pool, s, (k + 1) as nat);
                assert(are_positions(*centre, draws@, before, was[s]@));
                if pool_item(pool, draws@[k as int]) == Some(s) {
                    assert(out@[s]@ == was[s]@.push(out@[s]@.last()));
                    assert forall|i: int| 0 <= i < now.len() implies is_position(
                        *centre,
                        draws@[now[i]],
                        #[trigger] out@[s]@[i],
                    ) by {
                        if i < before.len() {
                            assert(out@[s]@[i] == was[s]@[i]);
                        }
                    }
                } else {
                    assert(out@[s] == was[s]);
                }
            }
        }
        k = k + 1;
    }
    out
}

/// The geometry of one streamed mesh: its vertices, and indices relative to them.
#[derive(Debug)]
pub struct DecodedMesh {
    pub vertices: Vec<Vertex>,
    pub indices: Vec<u16>,
}

/// The first vertex of a draw.
pub open spec fn first_vertex(obj: DrawObject) -> int {
    obj.vertex_offset as int / VERTEX_BYTES as int
}

/// A draw streams: it takes part in culling, and its slices lie in the buffers.
pub open spec fn streams(obj: DrawObject, vertices: nat, indices: nat) -> bool {
    &&& finite_box(obj.bb_min, obj.bb_max)
    &&& first_vertex(obj) + obj.vertex_count <= vertices
    &&& obj.index_offset + obj.index_count <= indices
}

/// A draw's slices have bounds, and where it streams its indices start at its own
/// vertices.
pub open spec fn sliceable(obj: DrawObject, vertices: nat, indices: Seq<u32>) -> bool {
    &&& first_vertex(obj) + obj.vertex_count <= usize::MAX
    &&& obj.index_offset + obj.index_count <= usize::MAX
    &&& streams(obj, vertices, indices.len()) ==> forall|i: int|
        obj.index_offset <= i < obj.index_offset + obj.index_count ==> first_vertex(obj)
            <= #[trigger] indices[i]
}

/// The draws among the first `k` that stream.
pub open spec fn streamed(
    draws: Seq<DrawObject>,
    vertices: nat,
    indices: nat,
    k: nat,
) -> Seq<usize>
    decreases k,
{
    if k == 0 {
        Seq::empty()
    } else {
        let before = streamed(draws, vertices, indices, (k - 1) as nat);
        if streams(draws[k - 1], vertices, indices) {
            before.push((k - 1) as usize)
        } else {
            before
        }
    }
}

/// Whether a payload is the geometry of a draw: a copy of its vertices, and its
/// indices relative to the first of them, in sixteen bits.
pub open spec fn is_payload(
    obj: DrawObject,
    vertices: Seq<Vertex>,
    indices: Seq<u32>,
    mesh: DecodedMesh,
) -> bool {
    &&& mesh.vertices@ == vertices.subrange(
        first_vertex(obj),
        first_vertex(obj) + obj.vertex_count,
    )
    &&& mesh.indices@.len() == obj.index_count
    &&& forall|i: int|
        0 <= i < obj.index_count ==> #[trigger] mesh.indices@[i] == (indices[obj.index_offset + i]
            - first_vertex(obj)) % 0x10000
}

/// What mesh streaming starts from.
#[derive(Debug)]
pub struct MeshStreamInputs {
    pub draw_indices: Vec<usize>,
    pub centers: Vec<Vec3>,
    pub payloads: Vec<DecodedMesh>,
}

impl MeshStreamInputs {
    /// Whether this is what the first `k` draws stream.
    pub open spec fn covers<F: Fn(Vec3, Vec3) -> Vec3>(
        &self,
        draws: Seq<DrawObject>,
        vertices: Seq<Vertex>,
        indices: Seq<u32>,
        centre: F,
        k: nat,
    ) -> bool {
        let picked = streamed(draws, vertices.len(), indices.len(), k);
        &&& self.draw_indices@ == picked
        &&& self.centers@.len() == picked.len()
        &&& self.payloads@.len() == picked.len()
        &&& forall|i: int|
            0 <= i < picked.len() ==> is_position(
                centre,
                draws[picked[i] as int],
                #[trigger] self.centers@[i],
            )
        &&& forall|i: int|
            0 <= i < picked.len() ==> is_payload(
                draws[picked[i] as int],
                vertices,
                indices,
                #[trigger] self.payloads@[i],
            )
    }
}

fn copy_payload(obj: &DrawObject, vertices: &Vec<Vertex>, indices: &Vec<u32>) -> (r: DecodedMesh)
    requires
        vertices@.len() <= u32::MAX,
        streams(*obj, vertices@.len(), indices@.len()),
        sliceable(*obj, vertices@.len(), indices@),
    ensures
        is_payload(*obj, vertices@, indices@, r),
{
    let start: usize = obj.vertex_offset / VERTEX_BYTES;
    let mut verts: Vec<Vertex> = Vec::new();
    let mut i: usize = 0;
    while i < obj.vertex_count
        invariant
            i <= obj.vertex_count,
            start == first_vertex(*obj),
            vertices@.len() <= u32::MAX,
            start + obj.vertex_count <= vertices@.len(),
            verts@ == vertices@.subrange(start as int, start + i),
        decreases obj.vertex_count - i,
    {
        verts.push(vertices[start + i]);
        i = i + 1;
        assert(verts@ =~= vertices@.subrange(start as int, start + i));
    }
    let base: u32 = start as u32;
    let mut idx: Vec<u16> = Vec::new();
    let mut j: usize = 0;
    while j < obj.index_count
        invariant
            j <= obj.index_count,
            base == first_vertex(*obj),
            vertices@.len() <= u32::MAX,
            streams(*obj, vertices@.len(), indices@.len()),
            sliceable(*obj, vertices@.len(), indices@),
            idx@.len() == j,
            forall|i: int|
                0 <= i < j ==> #[trigger] idx@[i] == (indices@[obj.index_offset + i]
                    - first_vertex(*obj)) % 0x10000,
        decreases obj.index_count - j,
    {
        let at: u32 = indices[obj.index_offset + j];
        assert(first_vertex(*obj) <= indices@[obj.index_offset + j]);
        idx.push(((at - base) % 0x10000) as u16);
        j = j + 1;
    }
    DecodedMesh { vertices: verts, indices: idx }
}

/// Take the geometry of every draw that streams: static draws that take part in
/// culling. A draw whose slices leave the buffers is passed over.
pub fn mesh_stream_inputs<F: Fn(Vec3, Vec3) -> Vec3>(
    draws: &Vec<DrawObject>,
    vertices: &Vec<Vertex>,
    indices: &Vec<u32>,
    centre: &F,
) -> (r: MeshStreamInputs)
    requires
        forall|lo: Vec3, hi: Vec3| call_requires(*centre, (lo, hi)),
        vertices@.len() <= u32::MAX,
        forall|i: int|
            0 <= i < draws@.len() ==> sliceable(#[trigger] draws@[i], vertices@.len(), indices@),
    ensures
        r.covers(draws@, vertices@, indices@, *centre, draws@.len()),
{
    let mut out = MeshStreamInputs {
        draw_indices: Vec::new(),
        centers: Vec::new(),
        payloads: Vec::new(),
    };
    let mut k: usize = 0;
    while k < draws.len()
        invariant
            k <= draws@.len(),
            forall|lo: Vec3, hi: Vec3| call_requires(*centre, (lo, hi)),
            vertices@.len() <= u32::MAX,
            forall|i: int|
                0 <= i < draws@.len() ==> sliceable(
                    #[trigger] draws@[i],
                    vertices@.len(),
                    indices@,
                ),
            out.covers(draws@, vertices@, indices@, *centre, k as nat),
        decreases draws@.len() - k,
    {
        let obj: &DrawObject = &draws[k];
        assert(sliceable(draws@[k as int], vertices@.len(), indices@));
        let vend: usize = obj.vertex_offset / VERTEX_BYTES + obj.vertex_count;
        let iend: usize = obj.index_offset + obj.index_count;
        if obj.cullable() && vend <= vertices.len() && iend <= indices.len() {
            let ghost was = out;
            out.draw_indices.push(k);
            out.centers.push(draw_object_position(obj, centre));
            out.payloads.push(copy_payload(obj, vertices, indices));
            proof {
                let before = streamed(draws@, vertices@.len(), indices@.len(), k as nat);
                let picked = streamed(draws@, vertices@.len(), indices@.len(), (k + 1) as nat);
                assert forall|i: int| 0 <= i < picked.len() implies is_position(
                    *centre,
                    draws@[picked[i] as int],
                    #[trigger] out.centers@[i],
                ) by {
                    if i < before.len() {
                        assert(out.centers@[i] == was.centers@[i]);
                    }
                }
                assert forall|i: int| 0 <= i < picked.len() implies is_payload(
                    draws@[picked[i] as int],
                    vertices@,
                    indices@,
                    #[trigger] out.payloads@[i],
                ) by {
                    if i < before.len() {
                        assert(out.payloads@[i] == was.payloads@[i]);
                    }
                }
            }
        }
        k = k + 1;
    }
    out
}

/// A streamed payload placed back at its first vertex reads what the draw read: each
/// index gives the same shared index, where the mesh fits sixteen bits.
pub proof fn law_payload_rebases(
    obj: DrawObject,
    vertices: Seq<Vertex>,
    indices: Seq<u32>,
    mesh: DecodedMesh,
    i: int,
)
    requires
        is_payload(obj, vertices, indices, mesh),
        0 <= i < obj.index_count,
        0 <= indices[obj.index_offset + i] - first_vertex(obj) < 0x10000,
    ensures
        mesh.indices@[i] + first_vertex(obj) == indices[obj.index_offset + i],
{
    let d = indices[obj.index_offset + i] - first_vertex(obj);
    assert(d % 0x10000 == d) by (nonlinear_arith)
        requires
            0 <= d < 0x10000,
    ;
}

/// The bytes of every payload: those of its vertices, and those of its indices once
/// widened to thirty-two bits.
pub fn payload_sizes(payloads: &Vec<DecodedMesh>) -> (r: Vec<(u64, u64)>)
    requires
        forall|i: int|
            0 <= i < payloads@.len() ==> (#[trigger] payloads@[i]).vertices@.len() * VERTEX_BYTES
                <= usize::MAX && payloads@[i].indices@.len() * 4 <= usize::MAX,
    ensures
        r@.len() == payloads@.len(),
        forall|i: int|
            0 <= i < payloads@.len() ==> (#[trigger] r@[i]).0 == payloads@[i].vertices@.len()
                * VERTEX_BYTES && r@[i].1 == payloads@[i].indices@.len() * 4,
{
    let mut out: Vec<(u64, u64)> = Vec::new();
    let mut i: usize = 0;
    while i < payloads.len()
        invariant
            i <= payloads@.len(),
            out@.len() == i,
            forall|i: int|
                0 <= i < payloads@.len() ==> (#[trigger] payloads@[i]).vertices@.len()
                    * VERTEX_BYTES <= usize::MAX && payloads@[i].indices@.len() * 4 <= usize::MAX,
            forall|j: int|
                0 <= j < i ==> (#[trigger] out@[j]).0 == payloads@[j].vertices@.len()
                    * VERTEX_BYTES && out@[j].1 == payloads@[j].indices@.len() * 4,
        decreases payloads@.len() - i,
    {
        let p: &DecodedMesh = &payloads[i];
        assert(payloads@[i as int].vertices@.len() * VERTEX_BYTES <= usize::MAX);
        out.push(((p.vertices.len() * VERTEX_BYTES) as u64, (p.indices.len() * 4) as u64));
        i = i + 1;
    }
    out
}

/// Which draws stream, as one flag per draw. Indices past the end are ignored.
pub fn stream_flags(draws: usize, picked: &Vec<usize>) -> (r: Vec<bool>)
    ensures
        r@.len() == draws,
        forall|i: int| 0 <= i < draws ==> #[trigger] r@[i] == picked@.contains(i as usize),
{
    let mut out: Vec<bool> = Vec::new();
    let mut i: usize = 0;
    while i < draws
        invariant
            i <= draws,
            out@.len() == i,
            forall|j: int| 0 <= j < i ==> !(#[trigger] out@[j]),
        decreases draws - i,
    {
        out.push(false);
        i = i + 1;
    }
    let mut k: usize = 0;
    while k < picked.len()
        invariant
            k <= picked@.len(),
            out@.len() == draws,
            forall|j: int|
                0 <= j < draws ==> #[trigger] out@[j] == picked@.subrange(0, k as int).contains(
                    j as usize,
                ),
        decreases picked@.len() - k,
    {
        let at: usize = picked[k];
        let ghost was = out@;
        if at < draws {
            out.set(at, true);
        }
        proof {
            let head = picked@.subrange(0, k as int);
            let next = picked@.subrange(0, k + 1);
            assert(next[k as int] == at);
            assert forall|j: int| 0 <= j < draws implies #[trigger] out@[j] == next.contains(
                j as usize,
            ) by {
                assert(was[j] == head.contains(j as usize));
                if head.contains(j as usize) {
                    let x = choose|x: int| 0 <= x < head.len() && head[x] == j as usize;
                    assert(next[x] == j as usize);
                }
                if next.contains(j as usize) && at != j {
                    let x = choose|x: int| 0 <= x < next.len() && next[x] == j as usize;
                    assert(head[x] == j as usize);
                }
            }
        }
        k = k + 1;
    }
    assert(picked@.subrange(0, k as int) =~= picked@);
    out
}

/// A draw without its alternates.
pub open spec fn lod0_only(was: DrawObject, now: DrawObject) -> bool {
    &&& now.lod_alternates@.len() == 0
    &&& now == (DrawObject { lod_alternates: now.lod_alternates, ..was })
}

/// Drop the alternates of every streamed draw, so that it is always drawn at its base
/// level: streaming places only that one.
pub fn strip_streamed_lods(draws: &mut Vec<DrawObject>, picked: &Vec<usize>)
    ensures
        final(draws)@.len() == old(draws)@.len(),
        forall|i: int|
            0 <= i < old(draws)@.len() ==> if picked@.contains(i as usize) {
                lod0_only(old(draws)@[i], #[trigger] final(draws)@[i])
            } else {
                final(draws)@[i] == old(draws)@[i]
            },
{
    let ghost start = draws@;
    let mut k: usize = 0;
    while k < picked.len()
        invariant
            k <= picked@.len(),
            draws@.len() == start.len(),
            forall|i: int|
                0 <= i < start.len() ==> if picked@.subrange(0, k as int).contains(i as usize) {
                    lod0_only(start[i], #[trigger] draws@[i])
                } else {
                    draws@[i] == start[i]
                },
        decreases picked@.len() - k,
    {
        let at: usize = picked[k];
        let ghost was = draws@;
        if at < draws.len() {
            draws[at].lod_alternates = Vec::new();
        }
        proof {
            let head = picked@.subrange(0, k as int);
            let next = picked@.subrange(0, k + 1);
            assert(next[k as int] == at);
            assert forall|i: int| 0 <= i < start.len() implies if next.contains(i as usize) {
                lod0_only(start[i], #[trigger] draws@[i])
            } else {
                draws@[i] == start[i]
            } by {
                assert(if head.contains(i as usize) {
                    lod0_only(start[i], was[i])
                } else {
                    was[i] == start[i]
                });
                if head.contains(i as usize) {
                    let x = choose|x: int| 0 <= x < head.len() && head[x] == i as usize;
                    assert(next[x] == i as usize);
                }
                if next.contains(i as usize) && at != i {
                    let x = choose|x: int| 0 <= x < next.len() && next[x] == i as usize;
                    assert(head[x] == i as usize);
                }
            }
        }
        k = k + 1;
    }
    assert(picked@.subrange(0, k as int) =~= picked@);
}

/// The most triangles a scene may have for its probes to be seeded from them.
pub const AUTO_SEED_MAX_TRIANGLES: usize = 200_000;

/// A draw whose triangles seed probes.
pub open spec fn seeds(obj: DrawObject) -> bool {
    finite_box(obj.bb_min, obj.bb_max) && obj.index_count >= 3
}

/// The triangles of the first `k` draws that seed probes.
pub open spec fn triangle_count(draws: Seq<DrawObject>, k: nat) -> int
    decreases k,
{
    if k == 0 {
        0
    } else {
        triangle_count(draws, (k - 1) as nat) + if seeds(draws[k - 1]) {
            draws[k - 1].index_count as int / 3
        } else {
            0
        }
    }
}

/// A triangle: the draw it belongs to and its three vertices.
#[derive(Debug, Clone, Copy, PartialEq, Eq)]
pub struct Triangle {
    pub draw: usize,
    pub corners: (usize, usize, usize),
}

/// The vertex that index `i` of a draw reads.
pub open spec fn vertex_at(obj: DrawObject, indices: Seq<u32>, i: int) -> int {
    indices[obj.index_offset + i] + obj.base_vertex
}

/// The triangles of the first `t` index triples of a draw, without those that read
/// outside the vertices.
pub open spec fn draw_triangles(
    draws: Seq<DrawObject>,
    d: int,
    vertices: nat,
    indices: Seq<u32>,
    t: nat,
) -> Seq<Triangle>
    decreases t,
{
    if t == 0 {
        Seq::empty()
    } else {
        let before = draw_triangles(draws, d, vertices, indices, (t - 1) as nat);
        let a = vertex_at(draws[d], indices, 3 * (t - 1));
        let b = vertex_at(draws[d], indices, 3 * (t - 1) + 1);
        let c = vertex_at(draws[d], indices, 3 * (t - 1) + 2);
        if 0 <= a < vertices && 0 <= b < vertices && 0 <= c < vertices {
            before.push(
                Triangle { draw: d as usize, corners: (a as usize, b as usize, c as usize) },
            )
        } else {
            before
        }
    }
}

/// The triangles of the first `k` draws: of those that seed probes and whose indices
/// lie in the buffer.
pub open spec fn scene_triangles(
    draws: Seq<DrawObject>,
    vertices: nat,
    indices: Seq<u32>,
    k: nat,
) -> Seq<Triangle>
    decreases k,
{
    if k == 0 {
        Seq::empty()
    } else {
        let before = scene_triangles(draws, vertices, indices, (k - 1) as nat);
        let obj = draws[k - 1];
        if seeds(obj) && obj.index_offset + obj.index_count <= indices.len() {
            before + draw_triangles(draws, k - 1, vertices, indices, obj.index_count as nat / 3)
        } else {
            before
        }
    }
}

proof fn lemma_triangle_count_grows(draws: Seq<DrawObject>, j: nat, k: nat)
    requires
        j <= k <= draws.len(),
    ensures
        0 <= triangle_count(draws, j) <= triangle_count(draws, k),
    decreases k,
{
    if j < k {
        lemma_triangle_count_grows(draws, j, (k - 1) as nat);
    } else if k > 0 {
        lemma_triangle_count_grows(draws, (k - 1) as nat, (k - 1) as nat);
    }
}

/// Whether the triangles are few enough to seed probes from, and there are any.
fn few_triangles(draws: &Vec<DrawObject>) -> (r: bool)
    ensures
        r == (0 < triangle_count(draws@, draws@.len()) <= AUTO_SEED_MAX_TRIANGLES),
{
    let mut total: usize = 0;
    let mut k: usize = 0;
    while k < draws.len()
        invariant
            k <= draws@.len(),
            total == triangle_count(draws@, k as nat),
            total <= AUTO_SEED_MAX_TRIANGLES,
        decreases draws@.len() - k,
    {
        let obj: &DrawObject = &draws[k];
        if obj.cullable() && obj.index_count >= 3 {
            let n: usize = obj.index_count / 3;
            if n > AUTO_SEED_MAX_TRIANGLES - total {
                proof {
                    lemma_triangle_count_grows(draws@, (k + 1) as nat, draws@.len());
                }
                return false;
            }
            total = total + n;
        }
        k = k + 1;
    }
    total > 0
}

/// The vertex of an index, where it is one.
fn corner(index: u32, base_vertex: i32, vertices: usize) -> (r: Option<usize>)
    ensures
        match r {
            Some(v) => v == index + base_vertex && v < vertices,
            None => !(0 <= index + base_vertex < vertices),
        },
{
    let at: i64 = index as i64 + base_vertex as i64;
    if at >= 0 && (at as u64) < vertices as u64 {
        Some(at as usize)
    } else {
        None
    }
}

fn push_draw_triangles(
    out: &mut Vec<Triangle>,
    draws: &Vec<DrawObject>,
    d: usize,
    vertices: usize,
    indices: &Vec<u32>,
)
    requires
        d < draws@.len(),
        draws@[d as int].index_offset + draws@[d as int].index_count <= indices@.len(),
    ensures
        final(out)@ == old(out)@ + draw_triangles(
            draws@,
            d as int,
            vertices as nat,
            indices@,
            draws@[d as int].index_count as nat / 3,
        ),
{
    let obj: &DrawObject = &draws[d];
    let count: usize = obj.index_count / 3;
    let limit: usize = indices.len();
    let ghost was = out@;
    let mut t: usize = 0;
    assert(out@ =~= was + draw_triangles(draws@, d as int, vertices as nat, indices@, 0));
    while t < count
        invariant
            d < draws@.len(),
            *obj == draws@[d as int],
            indices@.len() == limit,
            obj.index_offset + obj.index_count <= limit,
            count == obj.index_count / 3,
            t <= count,
            out@ == was + draw_triangles(
                draws@,
                d as int,
                vertices as nat,
                indices@,
                t as nat,
            ),
        decreases count - t,
    {
        let at: usize = obj.index_offset + 3 * t;
        match (
            corner(indices[at], obj.base_vertex, vertices),
            corner(indices[at + 1], obj.base_vertex, vertices),
            corner(indices[at + 2], obj.base_vertex, vertices),
        ) {
            (Some(a), Some(b), Some(c)) => {
                out.push(Triangle { draw: d, corners: (a, b, c) });
            },
            _ => {},
        }
        t = t + 1;
        assert(out@ =~= was + draw_triangles(
            draws@,
            d as int,
            vertices as nat,
            indices@,
            t as nat,
        ));
    }
}

/// The triangles that probes are seeded from; none where the scene has no static
/// triangles, too many, or none that can be read. A draw whose indices leave the index
/// buffer is skipped, and an index that leaves the vertex buffer drops its triangle.
pub fn gather_auto_seed_triangles(
    draws: &Vec<DrawObject>,
    vertices: usize,
    indices: &Vec<u32>,
) -> (r: Option<Vec<Triangle>>)
    ensures
        ({
            let total = triangle_count(draws@, draws@.len());
            let all = scene_triangles(draws@, vertices as nat, indices@, draws@.len());
            match r {
                Some(tris) => 0 < total <= AUTO_SEED_MAX_TRIANGLES && all.len() > 0 && tris@ == all,
                None => !(0 < total <= AUTO_SEED_MAX_TRIANGLES && all.len() > 0),
            }
        }),
        triangle_count(draws@, draws@.len()) > 200_000 ==> r is None,
        0 < triangle_count(draws@, draws@.len()) <= 200_000 && scene_triangles(
            draws@,
            vertices as nat,
            indices@,
            draws@.len(),
        ).len() > 0 ==> r is Some,
{
    if !few_triangles(draws) {
        return None;
    }
    let mut out: Vec<Triangle> = Vec::new();
    let mut k: usize = 0;
    while k < draws.len()
        invariant
            k <= draws@.len(),
            out@ == scene_triangles(draws@, vertices as nat, indices@, k as nat),
        decreases draws@.len() - k,
    {
        let obj: &DrawObject = &draws[k];
        if obj.cullable() && obj.index_count >= 3 && obj.index_offset <= indices.len()
            && obj.index_count <= indices.len() - obj.index_offset {
            push_draw_triangles(&mut out, draws, k, vertices, indices);
        }
        k = k + 1;
    }
    if out.len() > 0 {
        Some(out)
    } else {
        None
    }
}

/// The boxes of the first `k` draws that are finite.
pub open spec fn finite_boxes(draws: Seq<DrawObject>, k: nat) -> Seq<(Vec3, Vec3)>
    decreases k,
{
    if k == 0 {
        Seq::empty()
    } else {
        let before = finite_boxes(draws, (k - 1) as nat);
        let obj = draws[k - 1];
        if finite_box(obj.bb_min, obj.bb_max) {
            before.push((obj.bb_min, obj.bb_max))
        } else {
            before
        }
    }
}

/// The space that the draws occupy: their finite boxes.
pub fn occupancy(draws: &Vec<DrawObject>) -> (r: Vec<(Vec3, Vec3)>)
    ensures
        r@ == finite_boxes(draws@, draws@.len()),
{
    let mut out: Vec<(Vec3, Vec3)> = Vec::new();
    let mut k: usize = 0;
    while k < draws.len()
        invariant
            k <= draws@.len(),
            out@ == finite_boxes(draws@, k as nat),
        decreases draws@.len() - k,
    {
        if draws[k].cullable() {
            out.push((draws[k].bb_min, draws[k].bb_max));
        }
        k = k + 1;
    }
    out
}

/// An item's draws are those whose slot it is: the texture slot for an albedo item, and the
/// normal-map slot less one for a normal map, whose slot zero is no item.
pub proof fn law_item_is_scored_by_its_draws(
    draws: Seq<DrawObject>,
    pool: Pool,
    item: int,
    k: nat,
    d: int,
)
    requires
        k <= draws.len(),
        item >= 0,
    ensures
        samplers(draws, pool, item, k).contains(d) <==> 0 <= d < k && match pool {
            Pool::Albedo => draws[d].texture_slot == item,
            Pool::NormalMap => draws[d].normal_map_slot == item + 1,
        },
    decreases k,
{
    if k > 0 {
        law_item_is_scored_by_its_draws(draws, pool, item, (k - 1) as nat, d);
        let before = samplers(draws, pool, item, (k - 1) as nat);
        let now = samplers(draws, pool, item, k);
        if before.contains(d) {
            let c = choose|c: int| 0 <= c < before.len() && before[c] == d;
            assert(now[c] == d);
        }
        if now.len() > before.len() && d == k - 1 {
            assert(now[now.len() - 1] == d);
        }
        if now.contains(d) && !before.contains(d) {
            let c = choose|c: int| 0 <= c < now.len() && now[c] == d;
            assert(c == before.len());
        }
    }
}

/// A draw is scored by the middle of its box where the box is finite, and otherwise by where
/// its matrix puts it.
pub proof fn law_draw_is_scored_where_it_stands<F: Fn(Vec3, Vec3) -> Vec3>(
    centre: F,
    obj: DrawObject,
    pos: Vec3,
    middle: Vec3,
)
    requires
        is_position(centre, obj, pos),
        forall|m: Vec3| #[trigger]
            call_ensures(centre, (obj.bb_min, obj.bb_max), m) ==> m == middle,
    ensures
        (forall|a: int|
            0 <= a < 3 ==> (#[trigger] obj.bb_min[a]).finite() && obj.bb_max[a].finite()) ==> pos
            == middle,
        (exists|a: int|
            0 <= a < 3 && !((#[trigger] obj.bb_min[a]).finite() && obj.bb_max[a].finite()))
            ==> pos[0] == obj.model[3][0] && pos[1] == obj.model[3][1] && pos[2]
            == obj.model[3][2],
{
    assert(obj.bb_min[0] == obj.bb_min[0] && obj.bb_min[1] == obj.bb_min[1] && obj.bb_min[2]
        == obj.bb_min[2]);
    assert(obj.bb_max[0] == obj.bb_max[0] && obj.bb_max[1] == obj.bb_max[1] && obj.bb_max[2]
        == obj.bb_max[2]);
}

/// A draw streams exactly where its box is finite and its vertices and indices lie in the
/// buffers, and the draws that stream are told in order, each once.
pub proof fn law_culled_draws_stream(
    draws: Seq<DrawObject>,
    vertices: nat,
    indices: nat,
    k: nat,
    d: usize,
    a: int,
    b: int,
)
    requires
        k <= draws.len() <= usize::MAX,
    ensures
        streamed(draws, vertices, indices, k).contains(d) <==> {
            &&& d < k
            &&& finite_box(draws[d as int].bb_min, draws[d as int].bb_max)
            &&& draws[d as int].vertex_offset as int / VERTEX_BYTES as int
                + draws[d as int].vertex_count <= vertices
            &&& draws[d as int].index_offset + draws[d as int].index_count <= indices
        },
        0 <= a < b < streamed(draws, vertices, indices, k).len() ==> streamed(
            draws,
            vertices,
            indices,
            k,
        )[a] < streamed(draws, vertices, indices, k)[b],
        forall|i: int|
            0 <= i < streamed(draws, vertices, indices, k).len() ==> #[trigger] streamed(
                draws,
                vertices,
                indices,
                k,
            )[i] < k,
    decreases k,
{
    if k > 0 {
        law_culled_draws_stream(draws, vertices, indices, (k - 1) as nat, d, a, b);
        let before = streamed(draws, vertices, indices, (k - 1) as nat);
        let now = streamed(draws, vertices, indices, k);
        assert forall|i: int| 0 <= i < now.len() implies #[trigger] now[i] < k by {
            if i < before.len() {
                assert(now[i] == before[i]);
            }
        }
        if before.contains(d) {
            let c = choose|c: int| 0 <= c < before.len() && before[c] == d;
            assert(now[c] == d);
        }
        if now.len() > before.len() && d == k - 1 {
            assert(now[now.len() - 1] == d);
        }
        if now.contains(d) && !before.contains(d) {
            let c = choose|c: int| 0 <= c < now.len() && now[c] == d;
            assert(c == before.len());
        }
    }
}

/// A streamed payload holds the draw's own vertices, and its indices read them: what the
/// payload draws at an index is what the shared buffers draw there.
pub proof fn law_payload_draws_the_same(
    obj: DrawObject,
    vertices: Seq<Vertex>,
    indices: Seq<u32>,
    mesh: DecodedMesh,
    i: int,
)
    requires
        is_payload(obj, vertices, indices, mesh),
        streams(obj, vertices.len(), indices.len()),
        0 <= i < obj.index_count,
        0 <= indices[obj.index_offset + i] - first_vertex(obj) < obj.vertex_count,
        obj.vertex_count <= 0x10000,
    ensures
        mesh.vertices@.len() == obj.vertex_count,
        mesh.indices@.len() == obj.index_count,
        mesh.indices@[i] < mesh.vertices@.len(),
        mesh.vertices@[mesh.indices@[i] as int] == vertices[indices[obj.index_offset + i] as int],
{
    law_payload_rebases(obj, vertices, indices, mesh, i);
}

/// A triangle seeds probes exactly where one of its draw's index triples reads it: the
/// triple's three vertices in order, each within the vertices.
pub proof fn law_triangles_are_read_from_the_indices(
    draws: Seq<DrawObject>,
    d: int,
    vertices: nat,
    indices: Seq<u32>,
    t: nat,
    tri: Triangle,
)
    requires
        0 <= d < draws.len() <= usize::MAX,
        vertices <= usize::MAX,
    ensures
        draw_triangles(draws, d, vertices, indices, t).contains(tri) <==> exists|i: int|
            0 <= i < t && #[trigger] reads_triangle(draws[d], vertices, indices, i, tri) && tri.draw
                == d,
    decreases t,
{
    if t > 0 {
        law_triangles_are_read_from_the_indices(draws, d, vertices, indices, (t - 1) as nat, tri);
        let before = draw_triangles(draws, d, vertices, indices, (t - 1) as nat);
        let now = draw_triangles(draws, d, vertices, indices, t);
        if before.contains(tri) {
            let c = choose|c: int| 0 <= c < before.len() && before[c] == tri;
            assert(now[c] == tri);
        }
        if now.len() > before.len() && now[before.len() as int] == tri {
            assert(now.contains(tri));
            assert(reads_triangle(draws[d], vertices, indices, t - 1, tri));
        }
        if reads_triangle(draws[d], vertices, indices, t - 1, tri) && tri.draw == d {
            assert(now[before.len() as int] == tri);
        }
        if now.contains(tri) && !before.contains(tri) {
            let c = choose|c: int| 0 <= c < now.len() && now[c] == tri;
            assert(c == before.len());
        }
    }
}

/// The three vertices of an index triple of a draw are a triangle's corners.
pub open spec fn reads_triangle(
    obj: DrawObject,
    vertices: nat,
    indices: Seq<u32>,
    i: int,
    tri: Triangle,
) -> bool {
    &&& tri.corners.0 == indices[obj.index_offset + 3 * i] + obj.base_vertex
    &&& tri.corners.1 == indices[obj.index_offset + 3 * i + 1] + obj.base_vertex
    &&& tri.corners.2 == indices[obj.index_offset + 3 * i + 2] + obj.base_vertex
    &&& tri.corners.0 < vertices
    &&& tri.corners.1 < vertices
    &&& tri.corners.2 < vertices
}

/// The boxes that occupy space are those of the draws whose box is finite.
pub proof fn law_finite_draws_occupy(draws: Seq<DrawObject>, k: nat, lo: Vec3, hi: Vec3)
    requires
        k <= draws.len(),
    ensures
        finite_boxes(draws, k).contains((lo, hi)) <==> exists|d: int|
            0 <= d < k && finite_box((#[trigger] draws[d]).bb_min, draws[d].bb_max)
                && draws[d].bb_min == lo && draws[d].bb_max == hi,
    decreases k,
{
    if k > 0 {
        law_finite_draws_occupy(draws, (k - 1) as nat, lo, hi);
        let before = finite_boxes(draws, (k - 1) as nat);
        let now = finite_boxes(draws, k);
        let m = (lo, hi);
        if before.contains(m) {
            let c = choose|c: int| 0 <= c < before.len() && before[c] == m;
            assert(now[c] == m);
        }
        if now.len() > before.len() && now[before.len() as int] == m {
            assert(now.contains(m));
            assert(draws[k - 1].bb_min == lo);
        }
        if now.contains(m) && !before.contains(m) {
            let c = choose|c: int| 0 <= c < now.len() && now[c] == m;
            assert(c == before.len());
        }
    }
}

/// A streamed draw keeps all but its alternates.
pub proof fn law_streamed_draw_keeps_its_look(was: DrawObject, now: DrawObject)
    requires
        lod0_only(was, now),
    ensures
        now.lod_alternates@.len() == 0,
        now.vertex_offset == was.vertex_offset,
        now.vertex_count == was.vertex_count,
        now.index_offset == was.index_offset,
        now.index_count == was.index_count,
        now.base_vertex == was.base_vertex,
        now.model == was.model,
        now.texture_slot == was.texture_slot,
        now.normal_map_slot == was.normal_map_slot,
        now.bb_min == was.bb_min,
        now.bb_max == was.bb_max,
        now.material == was.material,
        now.visible == was.visible,
        now.resident == was.resident,
        now.cull_distance == was.cull_distance,
{
}

/// The triangles of a scene are those of the draws that seed probes, and only of those: draws
/// with a finite box, at least one triangle, and all their indices within the buffer.
pub proof fn law_scene_triangles_are_the_draws(
    draws: Seq<DrawObject>,
    vertices: nat,
    indices: Seq<u32>,
    k: nat,
    tri: Triangle,
)
    requires
        k <= draws.len(),
    ensures
        scene_triangles(draws, vertices, indices, k).contains(tri) <==> exists|d: int|
            0 <= d < k && {
                let obj = #[trigger] draws[d];
                &&& finite_box(obj.bb_min, obj.bb_max)
                &&& obj.index_count >= 3
                &&& obj.index_offset + obj.index_count <= indices.len()
                &&& draw_triangles(
                    draws,
                    d,
                    vertices,
                    indices,
                    obj.index_count as nat / 3,
                ).contains(tri)
            },
    decreases k,
{
    if k > 0 {
        law_scene_triangles_are_the_draws(draws, vertices, indices, (k - 1) as nat, tri);
        let before = scene_triangles(draws, vertices, indices, (k - 1) as nat);
        let now = scene_triangles(draws, vertices, indices, k);
        let obj = draws[k - 1];
        let own = draw_triangles(draws, k - 1, vertices, indices, obj.index_count as nat / 3);
        if before.contains(tri) {
            let c = choose|c: int| 0 <= c < before.len() && before[c] == tri;
            assert(now[c] == tri);
        }
        if now == before + own && own.contains(tri) {
            let c = choose|c: int| 0 <= c < own.len() && own[c] == tri;
            assert(now[before.len() + c] == tri);
        }
        if now.contains(tri) && !before.contains(tri) {
            let c = choose|c: int| 0 <= c < now.len() && now[c] == tri;
            if c < before.len() {
                assert(before[c] == tri);
            } else {
                assert(own[c - before.len()] == tri);
                assert(draws[k - 1] == obj);
            }
        }
        if exists|d: int|
            0 <= d < k && {
                let obj = #[trigger] draws[d];
                &&& finite_box(obj.bb_min, obj.bb_max)
                &&& obj.index_count >= 3
                &&& obj.index_offset + obj.index_count <= indices.len()
                &&& draw_triangles(
                    draws,
                    d,
                    vertices,
                    indices,
                    obj.index_count as nat / 3,
                ).contains(tri)
            } {
            let d = choose|d: int|
                0 <= d < k && {
                    let obj = #[trigger] draws[d];
                    &&& finite_box(obj.bb_min, obj.bb_max)
                    &&& obj.index_count >= 3
                    &&& obj.index_offset + obj.index_count <= indices.len()
                    &&& draw_triangles(
                        draws,
                        d,
                        vertices,
                        indices,
                        obj.index_count as nat / 3,
                    ).contains(tri)
                };
            assert(d < k - 1 ==> before.contains(tri));
        }
    }
}

/// The triangles of a scene are counted by threes of indices: a draw with a finite box counts
/// for a third of its indices, rounded down, and one without for nothing.
pub proof fn law_triangles_are_counted_by_threes(draws: Seq<DrawObject>, k: nat)
    requires
        k < draws.len(),
    ensures
        triangle_count(draws, 0) == 0,
        finite_box(draws[k as int].bb_min, draws[k as int].bb_max) ==> {
            let own = triangle_count(draws, k + 1) - triangle_count(draws, k);
            3 * own <= draws[k as int].index_count < 3 * own + 3
        },
        !finite_box(draws[k as int].bb_min, draws[k as int].bb_max) ==> triangle_count(draws, k + 1)
            == triangle_count(draws, k),
{
}

/// The positions of an item are those of its draws, in order, one for each.
pub proof fn law_positions_are_the_draws<F: Fn(Vec3, Vec3) -> Vec3>(
    centre: F,
    draws: Seq<DrawObject>,
    picked: Seq<int>,
    list: Seq<Vec3>,
    i: int,
)
    requires
        are_positions(centre, draws, picked, list),
        0 <= i < picked.len(),
    ensures
        list.len() == picked.len(),
        is_position(centre, draws[picked[i]], list[i]),
{
    let p = list[i];
}

/// Every draw that streams has its place in the stream: once, with where it stands and with
/// its own geometry; and nothing else does.
pub proof fn law_streamed_draw_has_its_place<F: Fn(Vec3, Vec3) -> Vec3>(
    inputs: MeshStreamInputs,
    draws: Seq<DrawObject>,
    vertices: Seq<Vertex>,
    indices: Seq<u32>,
    centre: F,
    d: usize,
    i: int,
)
    requires
        inputs.covers(draws, vertices, indices, centre, draws.len()),
        draws.len() <= usize::MAX,
    ensures
        inputs.draw_indices@.contains(d) <==> {
            &&& d < draws.len()
            &&& finite_box(draws[d as int].bb_min, draws[d as int].bb_max)
            &&& draws[d as int].vertex_offset as int / 56 + draws[d as int].vertex_count
                <= vertices.len()
            &&& draws[d as int].index_offset + draws[d as int].index_count <= indices.len()
        },
        inputs.centers@.len() == inputs.draw_indices@.len(),
        inputs.payloads@.len() == inputs.draw_indices@.len(),
        0 <= i < inputs.draw_indices@.len() ==> is_position(
            centre,
            draws[inputs.draw_indices@[i] as int],
            inputs.centers@[i],
        ) && is_payload(
            draws[inputs.draw_indices@[i] as int],
            vertices,
            indices,
            inputs.payloads@[i],
        ),
{
    law_culled_draws_stream(draws, vertices.len(), indices.len(), draws.len(), d, 0, 0);
    if 0 <= i < inputs.draw_indices@.len() {
        let c = inputs.centers@[i];
        let p = inputs.payloads@[i];
    }
}

} // verus!
