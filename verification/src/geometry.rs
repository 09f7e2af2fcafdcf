//! Packing meshes into the shared vertex and index buffers.

use crate::float_bits::{FloatBits, Vec3, infinity, neg_infinity, not_a_number};
use crate::render_types::{LodSlice, Vertex, VERTEX_BYTES};
use vstd::prelude::*;

verus! {

/// An alternate index list over a mesh's vertices, and the distance at which it
/// takes over.
#[derive(Debug)]
pub struct LodAlternate {
    pub switch_distance: FloatBits,
    pub indices: Vec<u16>,
}

/// Decoded mesh geometry. Every alternate shares the one vertex list.
#[derive(Debug)]
pub struct LoadedMesh {
    pub vertices: Vec<Vertex>,
    pub indices: Vec<u16>,
    pub lod_alternates: Vec<LodAlternate>,
}

/// Mesh-relative indices shifted to where the mesh's vertices start.
pub open spec fn rebase(indices: Seq<u16>, base: int) -> Seq<u32> {
    Seq::new(indices.len(), |i: int| (indices[i] + base) as u32)
}

/// The rebased indices of a list of alternates, one after the other.
pub open spec fn lods_rebased(lods: Seq<LodAlternate>, base: int) -> Seq<u32>
    decreases lods.len(),
{
    if lods.len() == 0 {
        Seq::empty()
    } else {
        lods_rebased(lods.drop_last(), base) + rebase(lods.last().indices@, base)
    }
}

/// All indices of a mesh: the base level, then the alternates.
pub open spec fn mesh_indices(mesh: LoadedMesh, base: int) -> Seq<u32> {
    rebase(mesh.indices@, base) + lods_rebased(mesh.lod_alternates@, base)
}

/// The slices of a mesh's alternates, for a mesh whose indices start at
/// `index_start`.
pub open spec fn lod_slices(mesh: LoadedMesh, index_start: int) -> Seq<LodSlice> {
    Seq::new(
        mesh.lod_alternates@.len(),
        |l: int|
            LodSlice {
                index_offset: (index_start + mesh.indices@.len() + lods_rebased(
                    mesh.lod_alternates@.subrange(0, l),
                    0,
                ).len()) as usize,
                index_count: mesh.lod_alternates@[l].indices@.len() as usize,
                switch_distance: mesh.lod_alternates@[l].switch_distance,
            },
    )
}

/// The shared vertices of a list of meshes.
pub open spec fn packed_vertices(meshes: Seq<LoadedMesh>) -> Seq<Vertex>
    decreases meshes.len(),
{
    if meshes.len() == 0 {
        Seq::empty()
    } else {
        packed_vertices(meshes.drop_last()) + meshes.last().vertices@
    }
}

/// The shared indices of a list of meshes, each mesh's rebased to where its
/// vertices start.
pub open spec fn packed_indices(meshes: Seq<LoadedMesh>) -> Seq<u32>
    decreases meshes.len(),
{
    if meshes.len() == 0 {
        Seq::empty()
    } else {
        packed_indices(meshes.drop_last()) + mesh_indices(
            meshes.last(),
            packed_vertices(meshes.drop_last()).len() as int,
        )
    }
}

/// The number of indices does not depend on the base.
pub proof fn lemma_lods_len(lods: Seq<LodAlternate>, a: int, b: int)
    ensures
        lods_rebased(lods, a).len() == lods_rebased(lods, b).len(),
    decreases lods.len(),
{
    if lods.len() > 0 {
        lemma_lods_len(lods.drop_last(), a, b);
    }
}

/// A prefix of a list of meshes has at most as many vertices.
pub proof fn lemma_packed_vertices_grow(meshes: Seq<LoadedMesh>, k: int)
    requires
        0 <= k <= meshes.len(),
    ensures
        packed_vertices(meshes.subrange(0, k)).len() <= packed_vertices(meshes).len(),
    decreases meshes.len() - k,
{
    if k < meshes.len() {
        lemma_packed_vertices_grow(meshes, k + 1);
        let next = meshes.subrange(0, k + 1);
        assert(next.drop_last() =~= meshes.subrange(0, k));
    } else {
        assert(meshes.subrange(0, k) =~= meshes);
    }
}

/// Where a mesh was placed in the shared buffers.
#[derive(Debug)]
pub struct Placement {
    pub vertex_start: usize,
    pub vertex_count: usize,
    pub index_offset: usize,
    pub index_count: usize,
    pub lods: Vec<LodSlice>,
}

impl Placement {
    /// Whether this is the placement of `mesh` behind the given buffers.
    pub open spec fn places(self, mesh: LoadedMesh, vertices: nat, indices: nat) -> bool {
        &&& self.vertex_start == vertices
        &&& self.vertex_count == mesh.vertices@.len()
        &&& self.index_offset == indices
        &&& self.index_count == mesh.indices@.len()
        &&& self.lods@ == lod_slices(mesh, indices as int)
    }
}

/// The shared buffers.
#[derive(Debug)]
pub struct Pack {
    pub vertices: Vec<Vertex>,
    pub indices: Vec<u32>,
}

/// Append rebased indices.
fn push_rebased(out: &mut Vec<u32>, indices: &Vec<u16>, base: u32)
    requires
        base + 0xffff <= u32::MAX,
    ensures
        final(out)@ == old(out)@ + rebase(indices@, base as int),
{
    let ghost was = out@;
    let mut i: usize = 0;
    while i < indices.len()
        invariant
            i <= indices@.len(),
            base + 0xffff <= u32::MAX,
            out@ == was + rebase(indices@, base as int).subrange(0, i as int),
        decreases indices@.len() - i,
    {
        out.push(indices[i] as u32 + base);
        i = i + 1;
        assert(out@ =~= was + rebase(indices@, base as int).subrange(0, i as int));
    }
    assert(rebase(indices@, base as int).subrange(0, i as int) =~= rebase(indices@, base as int));
}

impl Pack {
    pub fn new() -> (r: Pack)
        ensures
            r.vertices@ == Seq::<Vertex>::empty(),
            r.indices@ == Seq::<u32>::empty(),
    {
        Pack { vertices: Vec::new(), indices: Vec::new() }
    }

    /// Append a mesh: its vertices, its indices and its alternates' indices, all
    /// rebased to where its vertices start.
    pub fn append(&mut self, mesh: &LoadedMesh) -> (r: Placement)
        requires
            old(self).vertices@.len() + 0xffff <= u32::MAX,
        ensures
            final(self).vertices@ == old(self).vertices@ + mesh.vertices@,
            final(self).indices@ == old(self).indices@ + mesh_indices(
                *mesh,
                old(self).vertices@.len() as int,
            ),
            r.places(*mesh, old(self).vertices@.len(), old(self).indices@.len()),
    {
        let ghost verts_was = self.vertices@;
        let ghost idx_was = self.indices@;
        let vertex_start: usize = self.vertices.len();
        let index_offset: usize = self.indices.len();
        let base: u32 = vertex_start as u32;
        let mut i: usize = 0;
        while i < mesh.vertices.len()
            invariant
                i <= mesh.vertices@.len(),
                self.vertices@ == verts_was + mesh.vertices@.subrange(0, i as int),
                self.indices@ == idx_was,
            decreases mesh.vertices@.len() - i,
        {
            self.vertices.push(mesh.vertices[i]);
            i = i + 1;
            assert(self.vertices@ =~= verts_was + mesh.vertices@.subrange(0, i as int));
        }
        assert(mesh.vertices@.subrange(0, i as int) =~= mesh.vertices@);
        push_rebased(&mut self.indices, &mesh.indices, base);
        let mut lods: Vec<LodSlice> = Vec::new();
        let ghost alts = mesh.lod_alternates@;
        let ghost head = idx_was + rebase(mesh.indices@, base as int);
        let mut l: usize = 0;
        assert(alts.subrange(0, 0) =~= Seq::empty());
        assert(self.indices@ =~= head + lods_rebased(alts.subrange(0, 0), base as int));
        while l < mesh.lod_alternates.len()
            invariant
                l <= alts.len(),
                alts == mesh.lod_alternates@,
                base + 0xffff <= u32::MAX,
                base == verts_was.len(),
                index_offset == idx_was.len(),
                head == idx_was + rebase(mesh.indices@, base as int),
                self.vertices@ == verts_was + mesh.vertices@,
                self.indices@ == head + lods_rebased(alts.subrange(0, l as int), base as int),
                lods@ == lod_slices(*mesh, index_offset as int).subrange(0, l as int),
            decreases alts.len() - l,
        {
            let alt_offset: usize = self.indices.len();
            push_rebased(&mut self.indices, &mesh.lod_alternates[l].indices, base);
            lods.push(
                LodSlice {
                    index_offset: alt_offset,
                    index_count: mesh.lod_alternates[l].indices.len(),
                    switch_distance: mesh.lod_alternates[l].switch_distance,
                },
            );
            proof {
                let next = alts.subrange(0, l + 1);
                assert(next.drop_last() =~= alts.subrange(0, l as int));
                assert(self.indices@ =~= head + lods_rebased(next, base as int));
                lemma_lods_len(alts.subrange(0, l as int), base as int, 0);
                assert(lods@ =~= lod_slices(*mesh, index_offset as int).subrange(0, l + 1));
            }
            l = l + 1;
        }
        proof {
            assert(alts.subrange(0, l as int) =~= alts);
            assert(self.indices@ =~= idx_was + mesh_indices(*mesh, base as int));
            assert(lods@ =~= lod_slices(*mesh, index_offset as int));
        }
        Placement {
            vertex_start,
            vertex_count: mesh.vertices.len(),
            index_offset,
            index_count: mesh.indices.len(),
            lods,
        }
    }
}

/// The least coordinate of a list of vertices along an axis; values that are not
/// numbers are passed over.
pub open spec fn axis_min(verts: Seq<Vertex>, axis: int) -> FloatBits
    decreases verts.len(),
{
    if verts.len() == 0 {
        infinity()
    } else {
        axis_min(verts.drop_last(), axis).lesser(verts.last().pos[axis])
    }
}

/// The greatest coordinate of a list of vertices along an axis.
pub open spec fn axis_max(verts: Seq<Vertex>, axis: int) -> FloatBits
    decreases verts.len(),
{
    if verts.len() == 0 {
        neg_infinity()
    } else {
        axis_max(verts.drop_last(), axis).greater(verts.last().pos[axis])
    }
}

/// A box that opts out of culling: no component is a number.
pub open spec fn unculled(lo: Vec3, hi: Vec3) -> bool {
    &&& lo[0] == not_a_number() && lo[1] == not_a_number() && lo[2] == not_a_number()
    &&& hi[0] == not_a_number() && hi[1] == not_a_number() && hi[2] == not_a_number()
}

/// Whether `lo` and `hi` bound a vertex list; an empty list has the box that opts
/// out of culling.
pub open spec fn bounds(verts: Seq<Vertex>, lo: Vec3, hi: Vec3) -> bool {
    if verts.len() == 0 {
        unculled(lo, hi)
    } else {
        forall|a: int|
            0 <= a < 3 ==> #[trigger] lo[a] == axis_min(verts, a) && hi[a] == axis_max(verts, a)
    }
}

/// The box that opts out of culling.
pub fn unculled_box() -> (r: (Vec3, Vec3))
    ensures
        unculled(r.0, r.1),
{
    let n: FloatBits = FloatBits::new(0x7fc0_0000);
    ([n, n, n], [n, n, n])
}

fn axis_bounds(verts: &Vec<Vertex>, axis: usize) -> (r: (FloatBits, FloatBits))
    requires
        axis < 3,
    ensures
        r.0 == axis_min(verts@, axis as int),
        r.1 == axis_max(verts@, axis as int),
{
    let mut lo: FloatBits = FloatBits::new(0x7f80_0000);
    let mut hi: FloatBits = FloatBits::new(0xff80_0000);
    let mut i: usize = 0;
    assert(verts@.subrange(0, 0) =~= Seq::empty());
    while i < verts.len()
        invariant
            axis < 3,
            i <= verts@.len(),
            lo == axis_min(verts@.subrange(0, i as int), axis as int),
            hi == axis_max(verts@.subrange(0, i as int), axis as int),
        decreases verts@.len() - i,
    {
        let v: Vertex = verts[i];
        lo = lo.min(v.pos[axis]);
        hi = hi.max(v.pos[axis]);
        assert(verts@.subrange(0, i + 1).drop_last() =~= verts@.subrange(0, i as int));
        i = i + 1;
    }
    assert(verts@.subrange(0, i as int) =~= verts@);
    (lo, hi)
}

/// The box of a vertex list.
pub fn local_bounds(verts: &Vec<Vertex>) -> (r: (Vec3, Vec3))
    ensures
        bounds(verts@, r.0, r.1),
{
    if verts.len() == 0 {
        return unculled_box();
    }
    let (x0, x1): (FloatBits, FloatBits) = axis_bounds(verts, 0);
    let (y0, y1): (FloatBits, FloatBits) = axis_bounds(verts, 1);
    let (z0, z1): (FloatBits, FloatBits) = axis_bounds(verts, 2);
    ([x0, y0, z0], [x1, y1, z1])
}

/// The byte offset of a vertex in the shared buffer.
pub open spec fn vertex_bytes(start: int) -> int {
    start * VERTEX_BYTES
}

/// The base level of the mesh at position `k` stands in the packed indices behind
/// those of the meshes before it, shifted to the mesh's own vertices.
pub proof fn law_packed_mesh_draws_its_vertices(meshes: Seq<LoadedMesh>, k: int, i: int)
    requires
        0 <= k < meshes.len(),
        0 <= i < meshes[k].indices@.len(),
        meshes[k].indices@[i] < meshes[k].vertices@.len(),
        packed_vertices(meshes).len() + 0xffff <= u32::MAX,
    ensures
        ({
            let at = packed_indices(meshes.subrange(0, k)).len() + i;
            let start = packed_vertices(meshes.subrange(0, k)).len();
            let vertex = packed_indices(meshes)[at as int];
            &&& at < packed_indices(meshes).len()
            &&& vertex == start + meshes[k].indices@[i]
            &&& packed_vertices(meshes)[vertex as int] == meshes[k].vertices@[meshes[k].indices@[i] as int]
        }),
    decreases meshes.len(),
{
    let before = meshes.drop_last();
    if k == meshes.len() - 1 {
        assert(meshes.subrange(0, k) =~= before);
        let start = packed_vertices(before).len() as int;
        let head = packed_indices(before);
        let own = mesh_indices(meshes[k], start);
        assert(packed_indices(meshes) == head + own);
        assert(own[i] == rebase(meshes[k].indices@, start)[i]);
        assert((head + own)[head.len() + i] == own[i]);
        assert(packed_vertices(meshes).len() == start + meshes[k].vertices@.len());
        assert(own[i] == start + meshes[k].indices@[i]);
    } else {
        assert(before.subrange(0, k) =~= meshes.subrange(0, k));
        assert(packed_vertices(meshes).len() >= packed_vertices(before).len());
        law_packed_mesh_draws_its_vertices(before, k, i);
        let at = packed_indices(meshes.subrange(0, k)).len() + i;
        assert(packed_indices(meshes)[at] == packed_indices(before)[at]);
        lemma_packed_vertices_grow(before, k + 1);
        assert(before.subrange(0, k + 1).drop_last() =~= meshes.subrange(0, k));
        assert(before.subrange(0, k + 1).last() == meshes[k]);
        let vertex = packed_indices(before)[at] as int;
        assert(vertex < packed_vertices(before).len());
    }
}

proof fn lemma_lod_in_lods(lods: Seq<LodAlternate>, base: int, l: int, i: int)
    requires
        0 <= l < lods.len(),
        0 <= i < lods[l].indices@.len(),
    ensures
        ({
            let at = lods_rebased(lods.subrange(0, l), 0).len() + i;
            &&& at < lods_rebased(lods, base).len()
            &&& lods_rebased(lods, base)[at as int] == (lods[l].indices@[i] + base) as u32
        }),
    decreases lods.len(),
{
    let before = lods.drop_last();
    lemma_lods_len(lods.subrange(0, l), 0, base);
    if l == lods.len() - 1 {
        assert(lods.subrange(0, l) =~= before);
    } else {
        assert(before.subrange(0, l) =~= lods.subrange(0, l));
        lemma_lod_in_lods(before, base, l, i);
    }
}

/// An alternate of the mesh at position `k` stands in the packed indices where its slice
/// says, shifted to the mesh's own vertices, as many indices as it has; it takes over at
/// its own distance.
pub proof fn law_packed_alternate_draws_its_vertices(
    meshes: Seq<LoadedMesh>,
    k: int,
    l: int,
    i: int,
)
    requires
        0 <= k < meshes.len(),
        0 <= l < meshes[k].lod_alternates@.len(),
        0 <= i < meshes[k].lod_alternates@[l].indices@.len(),
        packed_vertices(meshes).len() + 0xffff <= u32::MAX,
        packed_indices(meshes).len() <= usize::MAX,
    ensures
        ({
            let lod = meshes[k].lod_alternates@[l];
            let slice = lod_slices(meshes[k], packed_indices(meshes.subrange(0, k)).len() as int)[l];
            let start = packed_vertices(meshes.subrange(0, k)).len();
            &&& slice.index_count == lod.indices@.len()
            &&& slice.switch_distance == lod.switch_distance
            &&& slice.index_offset + i < packed_indices(meshes).len()
            &&& packed_indices(meshes)[slice.index_offset + i] == start + lod.indices@[i]
        }),
    decreases meshes.len(),
{
    let before = meshes.drop_last();
    let mesh = meshes[k];
    let lod = mesh.lod_alternates@[l];
    if k == meshes.len() - 1 {
        assert(meshes.subrange(0, k) =~= before);
        let start = packed_vertices(before).len() as int;
        let head = packed_indices(before);
        let own = mesh_indices(mesh, start);
        assert(packed_indices(meshes) == head + own);
        lemma_lod_in_lods(mesh.lod_alternates@, start, l, i);
        let inner = lods_rebased(mesh.lod_alternates@.subrange(0, l), 0).len() as int;
        let tail = lods_rebased(mesh.lod_alternates@, start);
        assert(rebase(mesh.indices@, start).len() == mesh.indices@.len());
        assert(own[mesh.indices@.len() + inner + i] == tail[inner + i]);
        assert((head + own)[head.len() + mesh.indices@.len() + inner + i] == own[mesh.indices@.len()
            + inner + i]);
        assert(lod_slices(mesh, head.len() as int)[l].index_offset == head.len()
            + mesh.indices@.len() + inner);
        assert(packed_vertices(meshes).len() == start + mesh.vertices@.len());
        assert(tail[inner + i] == start + lod.indices@[i]);
        assert(lod.indices.len() == lod.indices@.len());
    } else {
        assert(before.subrange(0, k) =~= meshes.subrange(0, k));
        assert(packed_vertices(meshes).len() >= packed_vertices(before).len());
        law_packed_alternate_draws_its_vertices(before, k, l, i);
        let slice = lod_slices(mesh, packed_indices(meshes.subrange(0, k)).len() as int)[l];
        assert(packed_indices(meshes)[slice.index_offset + i] == packed_indices(
            before,
        )[slice.index_offset + i]);
    }
}

/// The vertices of the mesh at position `k` stand in the packed vertices, all of them and
/// in order, behind those of the meshes before it.
pub proof fn law_packed_vertices_are_the_meshes(meshes: Seq<LoadedMesh>, k: int, i: int)
    requires
        0 <= k < meshes.len(),
        0 <= i < meshes[k].vertices@.len(),
    ensures
        packed_vertices(meshes.subrange(0, k)).len() + i < packed_vertices(meshes).len(),
        packed_vertices(meshes)[packed_vertices(meshes.subrange(0, k)).len() + i]
            == meshes[k].vertices@[i],
        k == 0 ==> packed_vertices(meshes.subrange(0, k)).len() == 0,
        k > 0 ==> packed_vertices(meshes.subrange(0, k)).len() == packed_vertices(
            meshes.subrange(0, k - 1),
        ).len() + meshes[k - 1].vertices@.len(),
    decreases meshes.len(),
{
    let before = meshes.drop_last();
    if k > 0 {
        assert(meshes.subrange(0, k).drop_last() =~= meshes.subrange(0, k - 1));
    }
    if k == meshes.len() - 1 {
        assert(meshes.subrange(0, k) =~= before);
    } else {
        assert(before.subrange(0, k) =~= meshes.subrange(0, k));
        law_packed_vertices_are_the_meshes(before, k, i);
    }
}

/// The box of a vertex list holds every vertex whose coordinates are numbers, and no more
/// than it must: each face is reached by a vertex, or is infinite where no coordinate is
/// finite that way.
pub proof fn law_box_is_tight(verts: Seq<Vertex>, lo: Vec3, hi: Vec3, axis: int, i: int)
    requires
        bounds(verts, lo, hi),
        0 <= axis < 3,
        0 <= i < verts.len(),
        !verts[i].pos[axis].nan(),
    ensures
        lo[axis].at_most(verts[i].pos[axis]),
        verts[i].pos[axis].at_most(hi[axis]),
        lo[axis].bits == 0x7f80_0000 || exists|j: int|
            0 <= j < verts.len() && (#[trigger] verts[j]).pos[axis] == lo[axis],
        hi[axis].bits == 0xff80_0000 || exists|j: int|
            0 <= j < verts.len() && (#[trigger] verts[j]).pos[axis] == hi[axis],
{
    lemma_axis_bounds(verts, axis, i);
    assert(lo[axis] == axis_min(verts, axis));
}

proof fn lemma_axis_bounds(verts: Seq<Vertex>, axis: int, i: int)
    requires
        0 <= axis < 3,
    ensures
        !axis_min(verts, axis).nan(),
        !axis_max(verts, axis).nan(),
        0 <= i < verts.len() && !verts[i].pos[axis].nan() ==> axis_min(verts, axis).at_most(
            verts[i].pos[axis],
        ) && verts[i].pos[axis].at_most(axis_max(verts, axis)),
        axis_min(verts, axis).bits == 0x7f80_0000 || exists|j: int|
            0 <= j < verts.len() && (#[trigger] verts[j]).pos[axis] == axis_min(verts, axis),
        axis_max(verts, axis).bits == 0xff80_0000 || exists|j: int|
            0 <= j < verts.len() && (#[trigger] verts[j]).pos[axis] == axis_max(verts, axis),
    decreases verts.len(),
{
    if verts.len() > 0 {
        let before = verts.drop_last();
        let n = verts.len() - 1;
        lemma_axis_bounds(before, axis, i);
        if i < n && 0 <= i {
            assert(before[i] == verts[i]);
        }
        if axis_min(verts, axis) == axis_min(before, axis) && axis_min(before, axis).bits
            != 0x7f80_0000 {
            let j = choose|j: int|
                0 <= j < before.len() && (#[trigger] before[j]).pos[axis] == axis_min(before, axis);
            assert(verts[j].pos[axis] == axis_min(verts, axis));
        } else if axis_min(verts, axis).bits != 0x7f80_0000 {
            assert(verts[n].pos[axis] == axis_min(verts, axis));
        }
        if axis_max(verts, axis) == axis_max(before, axis) && axis_max(before, axis).bits
            != 0xff80_0000 {
            let j = choose|j: int|
                0 <= j < before.len() && (#[trigger] before[j]).pos[axis] == axis_max(before, axis);
            assert(verts[j].pos[axis] == axis_max(verts, axis));
        } else if axis_max(verts, axis).bits != 0xff80_0000 {
            assert(verts[n].pos[axis] == axis_max(verts, axis));
        }
    }
}

/// A list without vertices has a box that is never culled.
pub proof fn law_empty_box_is_unculled(verts: Seq<Vertex>, lo: Vec3, hi: Vec3)
    requires
        bounds(verts, lo, hi),
        verts.len() == 0,
    ensures
        lo[0].nan() && lo[1].nan() && lo[2].nan(),
        hi[0].nan() && hi[1].nan() && hi[2].nan(),
{
}

} // verus!
