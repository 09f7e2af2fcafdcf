//! Assembling the shared skinned buffers and the skinned draws.
//!
//! Skinned geometry shares one vertex buffer and one sixteen-bit index buffer. Each
//! mesh's indices, and those of its alternates, are shifted to where its vertices
//! start.

use crate::float_bits::{FloatBits, Mat4, Vec3, Vec4, infinity, neg_infinity, zero};
use crate::geometry::LodAlternate;
use crate::hot_reload_sources::{SkinnedMeshSourceEntry, SkinnedMeshSourceMap};
use crate::render_types::{LodSlice, MaterialEntry, MaterialUniforms};
use crate::tables::{AssetId, lookup};
use std::collections::HashMap;
use vstd::prelude::*;

verus! {

/// A skinned vertex.
#[derive(Debug, Clone, Copy)]
pub struct SkinnedVertex {
    pub pos: Vec3,
    pub normal: Vec3,
    pub tangent: Vec3,
    pub uv: [FloatBits; 2],
    pub joints: [u16; 4],
    pub weights: Vec4,
}

/// A declared skinned mesh with its decoded geometry.
#[derive(Debug)]
pub struct SkinnedGeometry {
    pub asset_id: AssetId,
    pub material: Option<AssetId>,
    pub texture: Option<AssetId>,
    /// The file of a file-backed mesh, or nothing.
    pub source: String,
    pub model: Mat4,
    pub vertices: Vec<SkinnedVertex>,
    pub indices: Vec<u16>,
    pub lod_alternates: Vec<LodAlternate>,
    /// The joints of the skeleton.
    pub joints: usize,
}

/// One draw of skinned geometry.
#[derive(Debug)]
pub struct SkinnedDrawObject {
    pub vertex_base: u16,
    pub vertex_count: usize,
    pub index_offset: usize,
    pub index_count: usize,
    pub model: Mat4,
    pub texture_slot: usize,
    pub normal_map_slot: usize,
    pub material: MaterialUniforms,
    pub visible: bool,
    pub joint_count: usize,
    pub local_bb_min: Vec3,
    pub local_bb_max: Vec3,
    pub lod_alternates: Vec<LodSlice>,
}

/// The shared skinned buffers, the draws over them and what is captured for
/// reloading.
#[derive(Debug)]
pub struct SkinnedScene {
    pub vertices: Vec<SkinnedVertex>,
    pub indices: Vec<u16>,
    pub draws: Vec<SkinnedDrawObject>,
    pub sources: SkinnedMeshSourceMap,
}

/// A mesh refers to a material that is not declared.
#[derive(Debug, Clone, Copy, PartialEq, Eq, Structural)]
pub struct UnknownMaterial {
    pub mesh: AssetId,
    pub material: AssetId,
}

/// The value of a vertex index once the mesh's vertices start at `base`.
pub open spec fn shifted(indices: Seq<u16>, base: int) -> Seq<u16> {
    Seq::new(indices.len(), |i: int| (indices[i] + base) as u16)
}

/// No shifted index leaves the sixteen bits.
pub open spec fn shift_fits(indices: Seq<u16>, base: int) -> bool {
    forall|i: int| 0 <= i < indices.len() ==> #[trigger] indices[i] + base <= 0xffff
}

/// The shifted indices of the first `n` alternates, one after the other.
pub open spec fn shifted_lods(lods: Seq<LodAlternate>, n: nat, base: int) -> Seq<u16>
    decreases n,
{
    if n == 0 {
        Seq::empty()
    } else {
        shifted_lods(lods, (n - 1) as nat, base) + shifted(lods[n - 1].indices@, base)
    }
}

/// The shared vertices of the first `k` meshes.
pub open spec fn vertices_of(meshes: Seq<SkinnedGeometry>, k: nat) -> Seq<SkinnedVertex>
    decreases k,
{
    if k == 0 {
        Seq::empty()
    } else {
        vertices_of(meshes, (k - 1) as nat) + meshes[k - 1].vertices@
    }
}

/// Where the vertices of mesh `k` start, in sixteen bits.
pub open spec fn base_of(meshes: Seq<SkinnedGeometry>, k: nat) -> int {
    vertices_of(meshes, k).len() as int % 0x10000
}

/// The indices that mesh `k` adds.
pub open spec fn indices_added(meshes: Seq<SkinnedGeometry>, k: nat) -> Seq<u16> {
    shifted(meshes[k as int].indices@, base_of(meshes, k)) + shifted_lods(
        meshes[k as int].lod_alternates@,
        meshes[k as int].lod_alternates@.len(),
        base_of(meshes, k),
    )
}

/// The shared indices of the first `k` meshes.
pub open spec fn indices_of(meshes: Seq<SkinnedGeometry>, k: nat) -> Seq<u16>
    decreases k,
{
    if k == 0 {
        Seq::empty()
    } else {
        indices_of(meshes, (k - 1) as nat) + indices_added(meshes, (k - 1) as nat)
    }
}

/// No index of mesh `k`, or of its alternates, leaves the sixteen bits once shifted.
pub open spec fn mesh_fits(meshes: Seq<SkinnedGeometry>, k: nat) -> bool {
    &&& shift_fits(meshes[k as int].indices@, base_of(meshes, k))
    &&& forall|l: int|
        0 <= l < meshes[k as int].lod_alternates@.len() ==> shift_fits(
            #[trigger] meshes[k as int].lod_alternates@[l].indices@,
            base_of(meshes, k),
        )
}

/// The slots and scalars a mesh is drawn with: its material's; without one, its
/// texture's slot, zero where the texture is not declared.
pub open spec fn look_of(
    mesh: SkinnedGeometry,
    materials: Map<u32, MaterialEntry>,
    textures: Map<u32, usize>,
    plain: MaterialUniforms,
) -> Option<MaterialEntry> {
    match mesh.material {
        Some(m) => if materials.dom().contains(m) {
            Some(materials[m])
        } else {
            None
        },
        None => Some(
            MaterialEntry {
                texture_slot: match mesh.texture {
                    Some(t) => if textures.dom().contains(t) {
                        textures[t]
                    } else {
                        0
                    },
                    None => 0,
                },
                normal_map_slot: 0,
                uniforms: plain,
            },
        ),
    }
}

/// The least coordinate along an axis.
pub open spec fn least(verts: Seq<SkinnedVertex>, n: nat, axis: int) -> FloatBits
    decreases n,
{
    if n == 0 {
        infinity()
    } else {
        least(verts, (n - 1) as nat, axis).lesser(verts[n - 1].pos[axis])
    }
}

/// The greatest coordinate along an axis.
pub open spec fn greatest(verts: Seq<SkinnedVertex>, n: nat, axis: int) -> FloatBits
    decreases n,
{
    if n == 0 {
        neg_infinity()
    } else {
        greatest(verts, (n - 1) as nat, axis).greater(verts[n - 1].pos[axis])
    }
}

/// The bind-pose box of a vertex list; that of an empty list is all zeros.
pub open spec fn is_bind_box(verts: Seq<SkinnedVertex>, lo: Vec3, hi: Vec3) -> bool {
    forall|a: int|
        0 <= a < 3 ==> #[trigger] lo[a] == (if verts.len() == 0 {
            zero()
        } else {
            least(verts, verts.len(), a)
        }) && hi[a] == (if verts.len() == 0 {
            zero()
        } else {
            greatest(verts, verts.len(), a)
        })
}

/// Whether the slices of mesh `k` are those of its alternates.
pub open spec fn are_slices(
    meshes: Seq<SkinnedGeometry>,
    k: nat,
    n: nat,
    slices: Seq<LodSlice>,
) -> bool {
    &&& slices.len() == n
    &&& forall|l: int| 0 <= l < n ==> is_slice(meshes, k, l as nat, #[trigger] slices[l])
}

/// Whether a slice is that of alternate `l` of mesh `k`.
pub open spec fn is_slice(
    meshes: Seq<SkinnedGeometry>,
    k: nat,
    l: nat,
    slice: LodSlice,
) -> bool {
    let mesh = meshes[k as int];
    &&& slice.index_offset == indices_of(meshes, k).len() + mesh.indices@.len() + shifted_lods(
        mesh.lod_alternates@,
        l,
        base_of(meshes, k),
    ).len()
    &&& slice.index_count == mesh.lod_alternates@[l as int].indices@.len()
    &&& slice.switch_distance == mesh.lod_alternates@[l as int].switch_distance
}

/// Whether a draw is that of mesh `k`.
pub open spec fn is_skinned_draw(
    meshes: Seq<SkinnedGeometry>,
    k: nat,
    look: MaterialEntry,
    max_joints: usize,
    draw: SkinnedDrawObject,
) -> bool {
    let mesh = meshes[k as int];
    &&& draw.vertex_base == base_of(meshes, k)
    &&& draw.vertex_count == mesh.vertices@.len()
    &&& draw.index_offset == indices_of(meshes, k).len()
    &&& draw.index_count == mesh.indices@.len()
    &&& draw.model == mesh.model
    &&& draw.texture_slot == look.texture_slot
    &&& draw.normal_map_slot == look.normal_map_slot
    &&& draw.material == look.uniforms
    &&& draw.visible
    &&& draw.joint_count == joints_used(mesh, max_joints)
    &&& is_bind_box(mesh.vertices@, draw.local_bb_min, draw.local_bb_max)
    &&& are_slices(meshes, k, mesh.lod_alternates@.len(), draw.lod_alternates@)
}

/// The joints of a mesh, capped.
pub open spec fn joints_used(mesh: SkinnedGeometry, max_joints: usize) -> usize {
    if mesh.joints <= max_joints {
        mesh.joints
    } else {
        max_joints
    }
}

/// The meshes captured among the first `k`: those with a source.
pub open spec fn captured_of(meshes: Seq<SkinnedGeometry>, capture: bool, k: nat) -> Seq<int>
    decreases k,
{
    if k == 0 {
        Seq::empty()
    } else {
        let before = captured_of(meshes, capture, (k - 1) as nat);
        if capture && meshes[k - 1].source@.len() > 0 {
            before.push(k - 1)
        } else {
            before
        }
    }
}

/// Whether an entry is what is captured of mesh `k`.
pub open spec fn is_captured(
    meshes: Seq<SkinnedGeometry>,
    k: int,
    max_joints: usize,
    e: SkinnedMeshSourceEntry,
) -> bool {
    &&& e.source@ == meshes[k].source@
    &&& e.skinned_index == k
    &&& e.vertex_base == base_of(meshes, k as nat)
    &&& e.vertex_count == meshes[k].vertices@.len()
    &&& e.index_count == meshes[k].indices@.len()
    &&& e.joint_count == joints_used(meshes[k], max_joints)
}

/// The first mesh whose material is not declared.
pub open spec fn first_unknown(
    meshes: Seq<SkinnedGeometry>,
    materials: Map<u32, MaterialEntry>,
    k: int,
) -> bool {
    &&& 0 <= k < meshes.len()
    &&& lacks_material(meshes[k], materials)
    &&& forall|j: int| 0 <= j < k ==> !lacks_material(#[trigger] meshes[j], materials)
}

/// A mesh refers to a material that is not declared.
pub open spec fn lacks_material(
    mesh: SkinnedGeometry,
    materials: Map<u32, MaterialEntry>,
) -> bool {
    mesh.material is Some && !materials.dom().contains(mesh.material->0)
}

impl SkinnedScene {
    /// Whether this is the scene of the first `k` meshes.
    pub open spec fn is_scene(
        &self,
        meshes: Seq<SkinnedGeometry>,
        materials: Map<u32, MaterialEntry>,
        textures: Map<u32, usize>,
        plain: MaterialUniforms,
        max_joints: usize,
        capture: bool,
        k: nat,
    ) -> bool {
        &&& self.vertices@ == vertices_of(meshes, k)
        &&& self.indices@ == indices_of(meshes, k)
        &&& self.draws@.len() == k
        &&& forall|i: int|
            0 <= i < k ==> is_skinned_draw(
                meshes,
                i as nat,
                look_of(meshes[i], materials, textures, plain)->0,
                max_joints,
                #[trigger] self.draws@[i],
            )
        &&& self.sources.entries@.len() == captured_of(meshes, capture, k).len()
        &&& forall|i: int|
            0 <= i < captured_of(meshes, capture, k).len() ==> is_captured(
                meshes,
                captured_of(meshes, capture, k)[i],
                max_joints,
                #[trigger] self.sources.entries@[i],
            )
    }
}

fn push_shifted(out: &mut Vec<u16>, indices: &Vec<u16>, base: u16)
    requires
        shift_fits(indices@, base as int),
    ensures
        final(out)@ == old(out)@ + shifted(indices@, base as int),
{
    let ghost was = out@;
    let mut i: usize = 0;
    while i < indices.len()
        invariant
            i <= indices@.len(),
            shift_fits(indices@, base as int),
            out@ == was + shifted(indices@, base as int).subrange(0, i as int),
        decreases indices@.len() - i,
    {
        assert(indices@[i as int] + base <= 0xffff);
        out.push(indices[i] + base);
        i = i + 1;
        assert(out@ =~= was + shifted(indices@, base as int).subrange(0, i as int));
    }
    assert(shifted(indices@, base as int).subrange(0, i as int) =~= shifted(indices@, base as int));
}

fn push_vertices(out: &mut Vec<SkinnedVertex>, verts: &Vec<SkinnedVertex>)
    ensures
        final(out)@ == old(out)@ + verts@,
{
    let ghost was = out@;
    let mut i: usize = 0;
    while i < verts.len()
        invariant
            i <= verts@.len(),
            out@ == was + verts@.subrange(0, i as int),
        decreases verts@.len() - i,
    {
        out.push(verts[i]);
        i = i + 1;
        assert(out@ =~= was + verts@.subrange(0, i as int));
    }
    assert(verts@.subrange(0, i as int) =~= verts@);
}

fn axis_range(verts: &Vec<SkinnedVertex>, axis: usize) -> (r: (FloatBits, FloatBits))
    requires
        axis < 3,
    ensures
        r.0 == least(verts@, verts@.len(), axis as int),
        r.1 == greatest(verts@, verts@.len(), axis as int),
{
    let mut lo: FloatBits = FloatBits::new(0x7f80_0000);
    let mut hi: FloatBits = FloatBits::new(0xff80_0000);
    let mut i: usize = 0;
    while i < verts.len()
        invariant
            axis < 3,
            i <= verts@.len(),
            lo == least(verts@, i as nat, axis as int),
            hi == greatest(verts@, i as nat, axis as int),
        decreases verts@.len() - i,
    {
        let v: SkinnedVertex = verts[i];
        lo = lo.min(v.pos[axis]);
        hi = hi.max(v.pos[axis]);
        i = i + 1;
    }
    (lo, hi)
}

fn bind_box(verts: &Vec<SkinnedVertex>) -> (r: (Vec3, Vec3))
    ensures
        is_bind_box(verts@, r.0, r.1),
{
    if verts.len() == 0 {
        let z: FloatBits = FloatBits::new(0);
        return ([z, z, z], [z, z, z]);
    }
    let (x0, x1): (FloatBits, FloatBits) = axis_range(verts, 0);
    let (y0, y1): (FloatBits, FloatBits) = axis_range(verts, 1);
    let (z0, z1): (FloatBits, FloatBits) = axis_range(verts, 2);
    ([x0, y0, z0], [x1, y1, z1])
}

fn resolve_look(
    mesh: &SkinnedGeometry,
    materials: &HashMap<u32, MaterialEntry>,
    textures: &HashMap<u32, usize>,
    plain: MaterialUniforms,
) -> (r: Option<MaterialEntry>)
    ensures
        r == look_of(*mesh, materials@, textures@, plain),
{
    match mesh.material {
        Some(m) => match lookup(materials, m) {
            Some(e) => Some(*e),
            None => None,
        },
        None => {
            let texture_slot: usize = match mesh.texture {
                Some(t) => match lookup(textures, t) {
                    Some(s) => *s,
                    None => 0,
                },
                None => 0,
            };
            Some(MaterialEntry { texture_slot, normal_map_slot: 0, uniforms: plain })
        },
    }
}

impl SkinnedScene {
    /// Append the geometry of mesh `k` and give its alternates' slices.
    fn append(&mut self, meshes: &Vec<SkinnedGeometry>, k: usize, base: u16) -> (r: Vec<LodSlice>)
        requires
            k < meshes@.len(),
            mesh_fits(meshes@, k as nat),
            base == base_of(meshes@, k as nat),
            old(self).vertices@ == vertices_of(meshes@, k as nat),
            old(self).indices@ == indices_of(meshes@, k as nat),
        ensures
            final(self).vertices@ == vertices_of(meshes@, (k + 1) as nat),
            final(self).indices@ == indices_of(meshes@, (k + 1) as nat),
            final(self).draws == old(self).draws,
            final(self).sources == old(self).sources,
            are_slices(meshes@, k as nat, meshes@[k as int].lod_alternates@.len(), r@),
    {
        let mesh: &SkinnedGeometry = &meshes[k];
        push_vertices(&mut self.vertices, &mesh.vertices);
        push_shifted(&mut self.indices, &mesh.indices, base);
        let ghost head = self.indices@;
        let mut slices: Vec<LodSlice> = Vec::new();
        let mut l: usize = 0;
        assert(self.indices@ =~= head + shifted_lods(mesh.lod_alternates@, 0, base as int));
        while l < mesh.lod_alternates.len()
            invariant
                k < meshes@.len(),
                *mesh == meshes@[k as int],
                mesh_fits(meshes@, k as nat),
                base == base_of(meshes@, k as nat),
                l <= mesh.lod_alternates@.len(),
                self.vertices@ == vertices_of(meshes@, (k + 1) as nat),
                self.draws == old(self).draws,
                self.sources == old(self).sources,
                head == indices_of(meshes@, k as nat) + shifted(mesh.indices@, base as int),
                self.indices@ == head + shifted_lods(mesh.lod_alternates@, l as nat, base as int),
                are_slices(meshes@, k as nat, l as nat, slices@),
            decreases mesh.lod_alternates@.len() - l,
        {
            let index_offset: usize = self.indices.len();
            let alt: &LodAlternate = &mesh.lod_alternates[l];
            assert(shift_fits(mesh.lod_alternates@[l as int].indices@, base as int));
            let ghost slices_was = slices@;
            push_shifted(&mut self.indices, &alt.indices, base);
            slices.push(
                LodSlice {
                    index_offset,
                    index_count: alt.indices.len(),
                    switch_distance: alt.switch_distance,
                },
            );
            proof {
                assert(self.indices@ =~= head + shifted_lods(
                    mesh.lod_alternates@,
                    (l + 1) as nat,
                    base as int,
                ));
                assert forall|j: int| 0 <= j < l + 1 implies is_slice(
                    meshes@,
                    k as nat,
                    j as nat,
                    #[trigger] slices@[j],
                ) by {
                    if j < l {
                        assert(slices@[j] == slices_was[j]);
                    }
                }
            }
            l = l + 1;
        }
        assert(self.indices@ =~= indices_of(meshes@, (k + 1) as nat));
        slices
    }
}

/// Assemble the skinned scene. Fails on the first mesh whose material is not
/// declared.
pub fn assemble_skinned(
    meshes: &Vec<SkinnedGeometry>,
    materials: &HashMap<u32, MaterialEntry>,
    textures: &HashMap<u32, usize>,
    plain: MaterialUniforms,
    max_joints: usize,
    capture_sources: bool,
) -> (r: Result<SkinnedScene, UnknownMaterial>)
    requires
        forall|k: nat| k < meshes@.len() ==> #[trigger] mesh_fits(meshes@, k),
    ensures
        match r {
            Ok(scene) => {
                &&& scene.is_scene(
                    meshes@,
                    materials@,
                    textures@,
                    plain,
                    max_joints,
                    capture_sources,
                    meshes@.len(),
                )
                &&& forall|k: int|
                    0 <= k < meshes@.len() ==> !lacks_material(#[trigger] meshes@[k], materials@)
            },
            Err(e) => exists|k: int| #[trigger]
                first_unknown(meshes@, materials@, k) && e.mesh == meshes@[k].asset_id && Some(
                    e.material,
                ) == meshes@[k].material,
        },
{
    let mut scene = SkinnedScene {
        vertices: Vec::new(),
        indices: Vec::new(),
        draws: Vec::new(),
        sources: SkinnedMeshSourceMap::new(),
    };
    let mut k: usize = 0;
    while k < meshes.len()
        invariant
            k <= meshes@.len(),
            forall|k: nat| k < meshes@.len() ==> #[trigger] mesh_fits(meshes@, k),
            scene.is_scene(
                meshes@,
                materials@,
                textures@,
                plain,
                max_joints,
                capture_sources,
                k as nat,
            ),
            forall|j: int| 0 <= j < k ==> !lacks_material(#[trigger] meshes@[j], materials@),
        decreases meshes@.len() - k,
    {
        let mesh: &SkinnedGeometry = &meshes[k];
        let look: MaterialEntry = match resolve_look(mesh, materials, textures, plain) {
            Some(l) => l,
            None => {
                let material: AssetId = mesh.material.unwrap();
                assert(first_unknown(meshes@, materials@, k as int));
                return Err(UnknownMaterial { mesh: mesh.asset_id, material });
            },
        };
        let ghost draws_was = scene.draws@;
        let ghost entries_was = scene.sources.entries@;
        let base: u16 = (scene.vertices.len() % 0x10000) as u16;
        let index_offset: usize = scene.indices.len();
        assert(mesh_fits(meshes@, k as nat));
        let lod_alternates: Vec<LodSlice> = scene.append(meshes, k, base);
        let joint_count: usize = if mesh.joints <= max_joints {
            mesh.joints
        } else {
            max_joints
        };
        let (local_bb_min, local_bb_max): (Vec3, Vec3) = bind_box(&mesh.vertices);
        scene.draws.push(
            SkinnedDrawObject {
                vertex_base: base,
                vertex_count: mesh.vertices.len(),
                index_offset,
                index_count: mesh.indices.len(),
                model: mesh.model,
                texture_slot: look.texture_slot,
                normal_map_slot: look.normal_map_slot,
                material: look.uniforms,
                visible: true,
                joint_count,
                local_bb_min,
                local_bb_max,
                lod_alternates,
            },
        );
        if capture_sources && mesh.source.as_str().unicode_len() > 0 {
            scene.sources.entries.push(
                SkinnedMeshSourceEntry {
                    source: mesh.source.clone(),
                    skinned_index: k,
                    vertex_base: base,
                    vertex_count: mesh.vertices.len(),
                    index_count: mesh.indices.len(),
                    joint_count,
                },
            );
        }
        proof {
            let n = (k + 1) as nat;
            assert forall|i: int| 0 <= i < n implies is_skinned_draw(
                meshes@,
                i as nat,
                look_of(meshes@[i], materials@, textures@, plain)->0,
                max_joints,
                #[trigger] scene.draws@[i],
            ) by {
                if i < k {
                    assert(scene.draws@[i] == draws_was[i]);
                }
            }
            let caught = captured_of(meshes@, capture_sources, n);
            assert forall|i: int| 0 <= i < caught.len() implies is_captured(
                meshes@,
                caught[i],
                max_joints,
                #[trigger] scene.sources.entries@[i],
            ) by {
                if i < entries_was.len() {
                    assert(scene.sources.entries@[i] == entries_was[i]);
                }
            }
        }
        k = k + 1;
    }
    Ok(scene)
}

/// A skinned draw's indices address its own vertices, where the mesh's own indices
/// did and all vertices fit sixteen bits: index `i` of mesh `k` reads vertex
/// `base + indices[i]`, which is the mesh's vertex `indices[i]`.
pub proof fn law_skinned_draw_reads_own_vertices(meshes: Seq<SkinnedGeometry>, k: nat, i: int)
    requires
        k < meshes.len(),
        0 <= i < meshes[k as int].indices@.len(),
        meshes[k as int].indices@[i] < meshes[k as int].vertices@.len(),
        vertices_of(meshes, (k + 1) as nat).len() <= 0x10000,
    ensures
        ({
            let at = indices_of(meshes, (k + 1) as nat)[indices_of(meshes, k).len() + i];
            &&& at < vertices_of(meshes, (k + 1) as nat).len()
            &&& vertices_of(meshes, (k + 1) as nat)[at as int]
                == meshes[k as int].vertices@[meshes[k as int].indices@[i] as int]
        }),
{
    let before = vertices_of(meshes, k);
    assert(before.len() < 0x10000);
    assert(before.len() as int % 0x10000 == before.len()) by (nonlinear_arith)
        requires
            before.len() < 0x10000,
    ;
}

/// An alternate of a skinned mesh draws the mesh's own vertices too: what its slice reads is
/// the mesh's vertex that the alternate's index names, where all vertices fit sixteen bits.
pub proof fn law_alternate_reads_own_vertices(
    meshes: Seq<SkinnedGeometry>,
    k: nat,
    l: nat,
    slice: LodSlice,
    i: int,
)
    requires
        k < meshes.len(),
        l < meshes[k as int].lod_alternates@.len(),
        is_slice(meshes, k, l, slice),
        0 <= i < meshes[k as int].lod_alternates@[l as int].indices@.len(),
        meshes[k as int].lod_alternates@[l as int].indices@[i] < meshes[k as int].vertices@.len(),
        vertices_of(meshes, (k + 1) as nat).len() <= 0x10000,
    ensures
        slice.switch_distance == meshes[k as int].lod_alternates@[l as int].switch_distance,
        slice.index_count == meshes[k as int].lod_alternates@[l as int].indices@.len(),
        ({
            let at = indices_of(meshes, (k + 1) as nat)[slice.index_offset + i];
            &&& slice.index_offset + i < indices_of(meshes, (k + 1) as nat).len()
            &&& at < vertices_of(meshes, (k + 1) as nat).len()
            &&& vertices_of(meshes, (k + 1) as nat)[at as int]
                == meshes[k as int].vertices@[meshes[k as int].lod_alternates@[l as int].indices@[i] as int]
        }),
{
    let mesh = meshes[k as int];
    let lods = mesh.lod_alternates@;
    let before = vertices_of(meshes, k);
    let base = base_of(meshes, k);
    assert(before.len() as int % 0x10000 == before.len()) by (nonlinear_arith)
        requires
            before.len() < 0x10000,
    ;
    lemma_lods_prefix(lods, l, lods.len(), base, i);
    let own = shifted(mesh.indices@, base);
    let all = shifted_lods(lods, lods.len(), base);
    let at = shifted_lods(lods, l, base).len() + i;
    assert(indices_added(meshes, k) == own + all);
    assert(indices_of(meshes, (k + 1) as nat)[slice.index_offset + i] == all[at]);
}

/// The shifted indices of an alternate stand behind those of the alternates before it.
proof fn lemma_lods_prefix(lods: Seq<LodAlternate>, l: nat, n: nat, base: int, i: int)
    requires
        l < n <= lods.len(),
        0 <= i < lods[l as int].indices@.len(),
    ensures
        shifted_lods(lods, l, base).len() + i < shifted_lods(lods, n, base).len(),
        shifted_lods(lods, n, base)[shifted_lods(lods, l, base).len() + i] == (
        lods[l as int].indices@[i] + base) as u16,
    decreases n,
{
    if l < n - 1 {
        lemma_lods_prefix(lods, l, (n - 1) as nat, base, i);
    }
}

/// What is appended later moves nothing: the shared vertices and indices of the first meshes
/// stand where they stood.
pub proof fn law_later_meshes_move_nothing(meshes: Seq<SkinnedGeometry>, j: nat, k: nat)
    requires
        j <= k <= meshes.len(),
    ensures
        vertices_of(meshes, j).len() <= vertices_of(meshes, k).len(),
        vertices_of(meshes, k).subrange(0, vertices_of(meshes, j).len() as int) == vertices_of(
            meshes,
            j,
        ),
        indices_of(meshes, j).len() <= indices_of(meshes, k).len(),
        indices_of(meshes, k).subrange(0, indices_of(meshes, j).len() as int) == indices_of(
            meshes,
            j,
        ),
    decreases k,
{
    let v = vertices_of(meshes, j);
    let x = indices_of(meshes, j);
    if j < k {
        law_later_meshes_move_nothing(meshes, j, (k - 1) as nat);
        let v1 = vertices_of(meshes, (k - 1) as nat);
        let x1 = indices_of(meshes, (k - 1) as nat);
        assert(vertices_of(meshes, k).subrange(0, v.len() as int) =~= v1.subrange(
            0,
            v.len() as int,
        ));
        assert(indices_of(meshes, k).subrange(0, x.len() as int) =~= x1.subrange(
            0,
            x.len() as int,
        ));
    } else {
        assert(vertices_of(meshes, k).subrange(0, v.len() as int) =~= v);
        assert(indices_of(meshes, k).subrange(0, x.len() as int) =~= x);
    }
}

/// A skinned mesh is drawn as it asks: in its own place, visible, with its material where it
/// names one, and otherwise with its texture on the flat normal map and the plain scalars.
pub proof fn law_skinned_mesh_is_drawn_as_it_asks(
    scene: SkinnedScene,
    meshes: Seq<SkinnedGeometry>,
    materials: Map<u32, MaterialEntry>,
    textures: Map<u32, usize>,
    plain: MaterialUniforms,
    max_joints: usize,
    capture: bool,
    k: nat,
    i: int,
)
    requires
        scene.is_scene(meshes, materials, textures, plain, max_joints, capture, k),
        0 <= i < k <= meshes.len(),
        !lacks_material(meshes[i], materials),
    ensures
        ({
            let mesh = meshes[i];
            let draw = scene.draws@[i];
            &&& scene.draws@.len() == k
            &&& draw.visible
            &&& draw.model == mesh.model
            &&& draw.vertex_count == mesh.vertices@.len()
            &&& draw.index_count == mesh.indices@.len()
            &&& draw.lod_alternates@.len() == mesh.lod_alternates@.len()
            &&& draw.joint_count <= mesh.joints && draw.joint_count <= max_joints
            &&& draw.joint_count == mesh.joints || draw.joint_count == max_joints
            &&& mesh.material matches Some(m) ==> {
                &&& draw.texture_slot == materials[m].texture_slot
                &&& draw.normal_map_slot == materials[m].normal_map_slot
                &&& draw.material == materials[m].uniforms
            }
            &&& mesh.material is None ==> {
                &&& draw.normal_map_slot == 0
                &&& draw.material == plain
                &&& mesh.texture is None ==> draw.texture_slot == 0
                &&& mesh.texture matches Some(t) ==> textures.dom().contains(t)
                    ==> draw.texture_slot == textures[t]
                &&& mesh.texture matches Some(t) ==> !textures.dom().contains(t)
                    ==> draw.texture_slot == 0
            }
        }),
{
    let draw = scene.draws@[i];
    assert(is_skinned_draw(
        meshes,
        i as nat,
        look_of(meshes[i], materials, textures, plain)->0,
        max_joints,
        draw,
    ));
}

/// The bind-pose box holds every vertex, and each of its sides touches one, where the
/// positions are numbers; the box of nothing is all zeros.
pub proof fn law_bind_box_is_tight(verts: Seq<SkinnedVertex>, lo: Vec3, hi: Vec3, axis: int)
    requires
        is_bind_box(verts, lo, hi),
        0 <= axis < 3,
        forall|i: int| 0 <= i < verts.len() ==> !(#[trigger] verts[i]).pos[axis].nan(),
    ensures
        verts.len() == 0 ==> lo[axis].bits == 0 && hi[axis].bits == 0,
        forall|i: int|
            0 <= i < verts.len() ==> lo[axis].at_most((#[trigger] verts[i]).pos[axis])
                && verts[i].pos[axis].at_most(hi[axis]),
        verts.len() > 0 ==> exists|i: int|
            0 <= i < verts.len() && (#[trigger] verts[i]).pos[axis].rank() == lo[axis].rank(),
        verts.len() > 0 ==> exists|i: int|
            0 <= i < verts.len() && (#[trigger] verts[i]).pos[axis].rank() == hi[axis].rank(),
{
    assert(lo[axis] == lo[axis]);
    if verts.len() > 0 {
        lemma_range_is_tight(verts, verts.len(), axis);
        assert(lo[axis] == least(verts, verts.len(), axis));
        assert(hi[axis] == greatest(verts, verts.len(), axis));
        let b = choose|i: int|
            0 <= i < verts.len() && (#[trigger] verts[i]).pos[axis].rank() == greatest(
                verts,
                verts.len(),
                axis,
            ).rank();
        assert(verts[b].pos[axis].rank() == hi[axis].rank());
    }
}

proof fn lemma_range_is_tight(verts: Seq<SkinnedVertex>, n: nat, axis: int)
    requires
        n <= verts.len(),
        0 <= axis < 3,
        forall|i: int| 0 <= i < verts.len() ==> !(#[trigger] verts[i]).pos[axis].nan(),
    ensures
        !least(verts, n, axis).nan(),
        !greatest(verts, n, axis).nan(),
        n == 0 ==> least(verts, n, axis) == infinity() && greatest(verts, n, axis)
            == neg_infinity(),
        forall|i: int|
            0 <= i < n ==> least(verts, n, axis).at_most((#[trigger] verts[i]).pos[axis])
                && verts[i].pos[axis].at_most(greatest(verts, n, axis)),
        n > 0 ==> exists|i: int|
            0 <= i < n && (#[trigger] verts[i]).pos[axis].rank() == least(verts, n, axis).rank(),
        n > 0 ==> exists|i: int|
            0 <= i < n && (#[trigger] verts[i]).pos[axis].rank() == greatest(verts, n, axis).rank(),
    decreases n,
{
    if n > 0 {
        lemma_range_is_tight(verts, (n - 1) as nat, axis);
        let v = verts[n - 1].pos[axis];
        let lo = least(verts, (n - 1) as nat, axis);
        let hi = greatest(verts, (n - 1) as nat, axis);
        assert(verts[n - 1].pos[axis] == v);
        if n == 1 {
            assert(verts[0].pos[axis].rank() == least(verts, n, axis).rank());
            assert(verts[0].pos[axis].rank() == greatest(verts, n, axis).rank());
        } else {
            let a = choose|i: int|
                0 <= i < n - 1 && (#[trigger] verts[i]).pos[axis].rank() == lo.rank();
            let b = choose|i: int|
                0 <= i < n - 1 && (#[trigger] verts[i]).pos[axis].rank() == hi.rank();
            assert(verts[a].pos[axis].rank() == least(verts, n, axis).rank() || v.rank() == least(
                verts,
                n,
                axis,
            ).rank());
            assert(verts[b].pos[axis].rank() == greatest(verts, n, axis).rank() || v.rank()
                == greatest(verts, n, axis).rank());
        }
    }
}

/// A mesh is watched exactly where captures are kept and it comes from a file.
pub proof fn law_file_backed_meshes_are_captured(
    meshes: Seq<SkinnedGeometry>,
    capture: bool,
    k: nat,
    i: int,
)
    requires
        k <= meshes.len(),
    ensures
        captured_of(meshes, capture, k).contains(i) <==> 0 <= i < k && capture
            && meshes[i].source@.len() > 0,
    decreases k,
{
    if k > 0 {
        law_file_backed_meshes_are_captured(meshes, capture, (k - 1) as nat, i);
        let before = captured_of(meshes, capture, (k - 1) as nat);
        let now = captured_of(meshes, capture, k);
        if before.contains(i) {
            let c = choose|c: int| 0 <= c < before.len() && before[c] == i;
            assert(now[c] == i);
        }
        if now.len() > before.len() && i == k - 1 {
            assert(now[now.len() - 1] == i);
        }
        if now.contains(i) && !before.contains(i) {
            let c = choose|c: int| 0 <= c < now.len() && now[c] == i;
            assert(c == before.len());
        }
    }
}

/// The mesh that is reported names a material that is not there, and no mesh before it does.
pub proof fn law_first_unknown_material_is_reported(
    meshes: Seq<SkinnedGeometry>,
    materials: Map<u32, MaterialEntry>,
    k: int,
    j: int,
)
    requires
        first_unknown(meshes, materials, k),
        0 <= j < k,
    ensures
        meshes[k].material matches Some(m) && !materials.dom().contains(m),
        meshes[j].material matches Some(m) ==> materials.dom().contains(m),
{
    assert(!lacks_material(meshes[j], materials));
}

} // verus!
