//! Assembling the draw list: which meshes are drawn, with which textures, and
//! where their geometry stands in the shared buffers.

use crate::float_bits::{FloatBits, Mat4, Vec3};
use crate::geometry::{
    LoadedMesh, Pack, Placement, bounds, local_bounds, lod_slices, packed_indices, packed_vertices,
    unculled, unculled_box, vertex_bytes,
};
use crate::render_types::{
    DrawObject, InstancedCluster, LodSlice, MaterialEntry, MaterialUniforms, VERTEX_BYTES, Vertex,
    finite_box,
};
use crate::tables::{AssetId, append_under, holds, keys_of, lists_keys, lookup};
use std::collections::HashMap;
use std::collections::HashSet;
use vstd::prelude::*;

verus! {

/// A physics body that a prop rides on.
#[derive(Debug, Clone, Copy)]
pub struct PropCollider {}

impl Default for PropCollider {
    fn default() -> (r: Self) {
        PropCollider {  }
    }
}

/// A placed scene object.
#[derive(Debug, Clone, Copy)]
pub struct Prop {
    pub asset_id: AssetId,
    pub model: Option<AssetId>,
    pub mesh: Option<AssetId>,
    pub material: Option<AssetId>,
    pub texture: Option<AssetId>,
    pub collider: Option<PropCollider>,
    pub interactable: bool,
    pub pickup: bool,
    pub parent: Option<AssetId>,
    pub scene: Option<AssetId>,
    pub cull_distance: FloatBits,
    pub is_held: bool,
}

/// One mesh of a multi-mesh model.
#[derive(Debug, Clone, Copy)]
pub struct SubMeshRef {
    pub mesh: Option<AssetId>,
    pub material: Option<AssetId>,
}

/// A batch of copies of one mesh, by their model matrices.
#[derive(Debug)]
pub struct InstancedProp {
    pub asset_id: AssetId,
    pub mesh: Option<AssetId>,
    pub material: Option<AssetId>,
    pub texture: Option<AssetId>,
    pub cull_distance: FloatBits,
    pub instances: Vec<Mat4>,
}

/// A room: geometry at the world origin with an optional texture.
#[derive(Debug)]
pub struct RoomGeometry {
    pub asset_id: AssetId,
    pub texture: Option<AssetId>,
    pub mesh: LoadedMesh,
}

/// Everything the draw list is built from.
#[derive(Debug)]
pub struct SceneInputs {
    pub props: Vec<Prop>,
    pub instanced_props: Vec<InstancedProp>,
    /// One world matrix per prop.
    pub world_mats: Vec<Mat4>,
    pub model_map: HashMap<u32, Vec<SubMeshRef>>,
    pub mesh_geometry: HashMap<u32, LoadedMesh>,
    pub room_geometry: Vec<RoomGeometry>,
    pub texture_name_to_slot: HashMap<u32, usize>,
    pub material_map: HashMap<u32, MaterialEntry>,
    pub always_resident_meshes: HashSet<u32>,
    pub default_material: MaterialUniforms,
    pub identity: Mat4,
}

/// Why a draw list cannot be built.
#[derive(Debug, Clone, Copy, PartialEq, Eq, Structural)]
pub enum DrawListError {
    UnknownModel { prop: AssetId, model: AssetId },
    SubMeshWithoutMesh { model: AssetId },
    UnknownSubMesh { model: AssetId, mesh: AssetId },
    UnknownSubMaterial { model: AssetId, material: AssetId },
    PropWithoutMesh { prop: AssetId },
    UnknownMesh { prop: AssetId, mesh: AssetId },
    UnknownMaterial { prop: AssetId, material: AssetId },
    UnknownInstancedMesh { prop: AssetId, mesh: AssetId },
    UnknownInstancedMaterial { prop: AssetId, material: AssetId },
    /// A prop, an instanced prop or a room without a material names a texture that is
    /// not there.
    UnknownTexture { owner: AssetId, texture: AssetId },
}

/// The asset that a look refers to and that is not there.
#[derive(Debug, Clone, Copy, PartialEq, Eq, Structural)]
pub enum MissingLook {
    Material(AssetId),
    Texture(AssetId),
}

/// One thing that is drawn, in the order in which geometry is packed.
#[derive(Debug, Clone, Copy)]
pub enum Source {
    /// A mesh of a prop.
    Placed { prop: usize, mesh: AssetId, look: MaterialEntry },
    /// The mesh of an instanced batch.
    Batch { inst: usize, mesh: AssetId, look: MaterialEntry },
    /// A mesh that nothing refers to.
    Loose { mesh: AssetId },
    /// A room.
    Room { room: usize, texture_slot: usize },
}

/// Whether a prop's transform can change at runtime, so that it stays out of the
/// init-time culling structure.
pub open spec fn dynamic(prop: Prop) -> bool {
    prop.pickup || prop.interactable || prop.parent is Some || prop.collider is Some
}

/// Decide [`dynamic`].
pub fn is_dynamic_prop(prop: &Prop) -> (r: bool)
    ensures
        r == dynamic(*prop),
{
    prop.pickup || prop.interactable || prop.parent.is_some() || prop.collider.is_some()
}

impl SceneInputs {
    /// The slot of an optional texture: zero without one, `None` where the texture is
    /// not known.
    pub open spec fn texture_slot(&self, texture: Option<AssetId>) -> Option<usize> {
        match texture {
            None => Some(0),
            Some(t) => if self.texture_name_to_slot@.dom().contains(t) {
                Some(self.texture_name_to_slot@[t])
            } else {
                None
            },
        }
    }

    fn find_texture(&self, texture: Option<AssetId>) -> (r: Option<usize>)
        ensures
            r == self.texture_slot(texture),
    {
        match texture {
            None => Some(0),
            Some(t) => match lookup(&self.texture_name_to_slot, t) {
                Some(slot) => Some(*slot),
                None => None,
            },
        }
    }

    /// The look of something with a material and a texture, of which the material wins,
    /// or what it refers to and is not known.
    pub open spec fn look(&self, material: Option<AssetId>, texture: Option<AssetId>) -> Result<
        MaterialEntry,
        MissingLook,
    > {
        match material {
            Some(m) => if self.material_map@.dom().contains(m) {
                Ok(self.material_map@[m])
            } else {
                Err(MissingLook::Material(m))
            },
            None => match self.texture_slot(texture) {
                Some(texture_slot) => Ok(
                    MaterialEntry {
                        texture_slot,
                        normal_map_slot: 0,
                        uniforms: self.default_material,
                    },
                ),
                None => Err(MissingLook::Texture(texture->0)),
            },
        }
    }

    fn find_look(&self, material: Option<AssetId>, texture: Option<AssetId>) -> (r: Result<
        MaterialEntry,
        MissingLook,
    >)
        ensures
            r == self.look(material, texture),
    {
        match material {
            Some(m) => match lookup(&self.material_map, m) {
                Some(e) => Ok(*e),
                None => Err(MissingLook::Material(m)),
            },
            None => match texture {
                None => Ok(
                    MaterialEntry {
                        texture_slot: 0,
                        normal_map_slot: 0,
                        uniforms: self.default_material,
                    },
                ),
                Some(t) => match self.find_texture(texture) {
                    Some(texture_slot) => Ok(
                        MaterialEntry {
                            texture_slot,
                            normal_map_slot: 0,
                            uniforms: self.default_material,
                        },
                    ),
                    None => Err(MissingLook::Texture(t)),
                },
            },
        }
    }

    /// The material is known or, for want of one, the texture is known or absent.
    pub open spec fn has_look(&self, material: Option<AssetId>, texture: Option<AssetId>) -> bool {
        match material {
            Some(m) => self.material_map@.dom().contains(m),
            None => texture is Some ==> self.texture_name_to_slot@.dom().contains(texture->0),
        }
    }

    /// A sub-mesh names a mesh that is there, and no material that is not.
    pub open spec fn has_sub(&self, sub: SubMeshRef) -> bool {
        &&& sub.mesh is Some && self.mesh_geometry@.dom().contains(sub.mesh->0)
        &&& self.has_look(sub.material, None)
    }

    /// What a prop refers to is there: its model with every sub-mesh or, without one,
    /// its mesh and look.
    pub open spec fn has_prop(&self, prop: Prop) -> bool {
        match prop.model {
            Some(model) => self.model_map@.dom().contains(model) && forall|j: int|
                0 <= j < self.model_map@[model]@.len() ==> self.has_sub(
                    #[trigger] self.model_map@[model]@[j],
                ),
            None => prop.mesh is Some && self.mesh_geometry@.dom().contains(prop.mesh->0)
                && self.has_look(prop.material, prop.texture),
        }
    }

    /// What an instanced prop refers to is there, unless it is passed over.
    pub open spec fn has_batch(&self, inst: InstancedProp) -> bool {
        inst.mesh is Some && inst.instances@.len() > 0 ==> self.mesh_geometry@.dom().contains(
            inst.mesh->0,
        ) && self.has_look(inst.material, inst.texture)
    }

    /// What one sub-mesh of a model is drawn as.
    pub open spec fn sub_source(&self, prop: int, model: AssetId, sub: SubMeshRef) -> Result<
        Source,
        DrawListError,
    > {
        match sub.mesh {
            None => Err(DrawListError::SubMeshWithoutMesh { model }),
            Some(mesh) => if !self.mesh_geometry@.dom().contains(mesh) {
                Err(DrawListError::UnknownSubMesh { model, mesh })
            } else {
                match self.look(sub.material, None) {
                    Err(MissingLook::Material(material)) => Err(
                        DrawListError::UnknownSubMaterial { model, material },
                    ),
                    Err(MissingLook::Texture(texture)) => Err(
                        DrawListError::UnknownTexture { owner: model, texture },
                    ),
                    Ok(look) => Ok(Source::Placed { prop: prop as usize, mesh, look }),
                }
            },
        }
    }

    /// What the first `k` sub-meshes of a model are drawn as, or the first error.
    pub open spec fn sub_sources(
        &self,
        prop: int,
        model: AssetId,
        subs: Seq<SubMeshRef>,
        k: nat,
    ) -> Result<Seq<Source>, DrawListError>
        decreases k,
    {
        if k == 0 {
            Ok(Seq::empty())
        } else {
            match self.sub_sources(prop, model, subs, (k - 1) as nat) {
                Err(e) => Err(e),
                Ok(s) => match self.sub_source(prop, model, subs[k - 1]) {
                    Err(e) => Err(e),
                    Ok(src) => Ok(s.push(src)),
                },
            }
        }
    }

    /// What a prop is drawn as: one draw per sub-mesh of its model, or one for its
    /// mesh.
    pub open spec fn prop_sources(&self, i: int) -> Result<Seq<Source>, DrawListError> {
        let prop = self.props@[i];
        match prop.model {
            Some(model) => if !self.model_map@.dom().contains(model) {
                Err(DrawListError::UnknownModel { prop: prop.asset_id, model })
            } else {
                let subs = self.model_map@[model]@;
                self.sub_sources(i, model, subs, subs.len())
            },
            None => match prop.mesh {
                None => Err(DrawListError::PropWithoutMesh { prop: prop.asset_id }),
                Some(mesh) => if !self.mesh_geometry@.dom().contains(mesh) {
                    Err(DrawListError::UnknownMesh { prop: prop.asset_id, mesh })
                } else {
                    match self.look(prop.material, prop.texture) {
                        Err(MissingLook::Material(material)) => Err(
                            DrawListError::UnknownMaterial { prop: prop.asset_id, material },
                        ),
                        Err(MissingLook::Texture(texture)) => Err(
                            DrawListError::UnknownTexture { owner: prop.asset_id, texture },
                        ),
                        Ok(look) => Ok(seq![Source::Placed { prop: i as usize, mesh, look }]),
                    }
                },
            },
        }
    }

    /// What the first `k` props are drawn as, or the first error.
    pub open spec fn placed(&self, k: nat) -> Result<Seq<Source>, DrawListError>
        decreases k,
    {
        if k == 0 {
            Ok(Seq::empty())
        } else {
            match self.placed((k - 1) as nat) {
                Err(e) => Err(e),
                Ok(s) => match self.prop_sources(k - 1) {
                    Err(e) => Err(e),
                    Ok(t) => Ok(s + t),
                },
            }
        }
    }

    /// What the first `k` instanced props are drawn as, or the first error. One
    /// without a mesh or without instances is passed over.
    pub open spec fn batches(&self, k: nat) -> Result<Seq<Source>, DrawListError>
        decreases k,
    {
        if k == 0 {
            Ok(Seq::empty())
        } else {
            match self.batches((k - 1) as nat) {
                Err(e) => Err(e),
                Ok(s) => {
                    let inst = self.instanced_props@[k - 1];
                    if inst.mesh is None || inst.instances@.len() == 0 {
                        Ok(s)
                    } else {
                        let mesh = inst.mesh->0;
                        if !self.mesh_geometry@.dom().contains(mesh) {
                            Err(
                                DrawListError::UnknownInstancedMesh { prop: inst.asset_id, mesh },
                            )
                        } else {
                            match self.look(inst.material, inst.texture) {
                                Err(MissingLook::Material(material)) => Err(
                                    DrawListError::UnknownInstancedMaterial {
                                        prop: inst.asset_id,
                                        material,
                                    },
                                ),
                                Err(MissingLook::Texture(texture)) => Err(
                                    DrawListError::UnknownTexture { owner: inst.asset_id, texture },
                                ),
                                Ok(look) => Ok(
                                    s.push(Source::Batch { inst: (k - 1) as usize, mesh, look }),
                                ),
                            }
                        }
                    }
                },
            }
        }
    }

    /// A mesh that a prop, a model of a prop or an instanced prop refers to.
    pub open spec fn referenced(&self, mesh: AssetId) -> bool {
        ||| exists|i: int| 0 <= i < self.props@.len() && self.prop_refers(#[trigger] self.props@[i], mesh)
        ||| exists|i: int|
            0 <= i < self.instanced_props@.len() && (#[trigger] self.instanced_props@[i]).mesh
                == Some(mesh)
    }

    /// A prop refers to a mesh directly or through its model.
    pub open spec fn prop_refers(&self, prop: Prop, mesh: AssetId) -> bool {
        ||| prop.mesh == Some(mesh)
        ||| prop.model is Some && self.model_map@.dom().contains(prop.model->0) && subs_refer(
            self.model_map@[prop.model->0]@,
            mesh,
        )
    }

    /// An order in which the meshes can be walked.
    pub open spec fn is_order(&self, order: Seq<AssetId>) -> bool {
        lists_keys(order, self.mesh_geometry@.dom())
    }

    /// The unreferenced meshes among the first `k` of an order.
    pub open spec fn loose(&self, order: Seq<AssetId>, k: nat) -> Seq<Source>
        decreases k,
    {
        if k == 0 {
            Seq::empty()
        } else {
            let mesh = order[k - 1];
            if !self.referenced(mesh) {
                self.loose(order, (k - 1) as nat).push(Source::Loose { mesh })
            } else {
                self.loose(order, (k - 1) as nat)
            }
        }
    }

    /// What the first `k` rooms are drawn as, or the first error.
    pub open spec fn rooms(&self, k: nat) -> Result<Seq<Source>, DrawListError>
        decreases k,
    {
        if k == 0 {
            Ok(Seq::empty())
        } else {
            match self.rooms((k - 1) as nat) {
                Err(e) => Err(e),
                Ok(s) => {
                    let room = self.room_geometry@[k - 1];
                    match self.texture_slot(room.texture) {
                        None => Err(
                            DrawListError::UnknownTexture {
                                owner: room.asset_id,
                                texture: room.texture->0,
                            },
                        ),
                        Some(texture_slot) => Ok(
                            s.push(Source::Room { room: (k - 1) as usize, texture_slot }),
                        ),
                    }
                },
            }
        }
    }

    /// Everything that is drawn, in packing order: props, instanced batches,
    /// unreferenced meshes in a given order, rooms.
    pub open spec fn sources(&self, order: Seq<AssetId>) -> Result<Seq<Source>, DrawListError> {
        match self.placed(self.props@.len()) {
            Err(e) => Err(e),
            Ok(p) => match self.batches(self.instanced_props@.len()) {
                Err(e) => Err(e),
                Ok(b) => match self.rooms(self.room_geometry@.len()) {
                    Err(e) => Err(e),
                    Ok(r) => Ok(p + b + self.loose(order, order.len()) + r),
                },
            },
        }
    }

    /// The geometry of a source.
    pub open spec fn geometry_of(&self, src: Source) -> LoadedMesh {
        match src {
            Source::Placed { mesh, .. } => self.mesh_geometry@[mesh],
            Source::Batch { mesh, .. } => self.mesh_geometry@[mesh],
            Source::Loose { mesh } => self.mesh_geometry@[mesh],
            Source::Room { room, .. } => self.room_geometry@[room as int].mesh,
        }
    }

    /// The geometry of a list of sources.
    pub open spec fn geometry(&self, sources: Seq<Source>) -> Seq<LoadedMesh> {
        Seq::new(sources.len(), |i: int| self.geometry_of(sources[i]))
    }

    /// A source whose parts are all there.
    pub open spec fn valid(&self, src: Source) -> bool {
        match src {
            Source::Placed { prop, mesh, .. } => prop < self.props@.len()
                && self.mesh_geometry@.dom().contains(mesh),
            Source::Batch { inst, mesh, .. } => inst < self.instanced_props@.len()
                && self.mesh_geometry@.dom().contains(mesh)
                && self.instanced_props@[inst as int].instances@.len() > 0,
            Source::Loose { mesh } => self.mesh_geometry@.dom().contains(mesh),
            Source::Room { room, .. } => room < self.room_geometry@.len(),
        }
    }
}

/// One of a model's sub-meshes refers to a mesh.
pub open spec fn subs_refer(subs: Seq<SubMeshRef>, mesh: AssetId) -> bool {
    exists|j: int| 0 <= j < subs.len() && (#[trigger] subs[j]).mesh == Some(mesh)
}

/// The number of draw objects among the first `k` sources: all but the batches.
pub open spec fn object_rank(sources: Seq<Source>, k: nat) -> nat
    decreases k,
{
    if k == 0 {
        0
    } else {
        object_rank(sources, (k - 1) as nat) + if sources[k - 1] is Batch {
            0nat
        } else {
            1nat
        }
    }
}

/// The number of instanced clusters among the first `k` sources.
pub open spec fn cluster_rank(sources: Seq<Source>, k: nat) -> nat {
    (k - object_rank(sources, k)) as nat
}

/// A source that draws a given mesh asset as a draw object.
pub open spec fn draws_mesh(src: Source, id: AssetId) -> bool {
    match src {
        Source::Placed { mesh, .. } => mesh == id,
        Source::Loose { mesh } => mesh == id,
        _ => false,
    }
}

/// The draw objects that got a copy of a mesh asset, among the first `k` sources.
pub open spec fn draws_of(sources: Seq<Source>, k: nat, id: AssetId) -> Seq<usize>
    decreases k,
{
    if k == 0 {
        Seq::empty()
    } else {
        let before = draws_of(sources, (k - 1) as nat, id);
        if draws_mesh(sources[k - 1], id) {
            before.push(object_rank(sources, (k - 1) as nat) as usize)
        } else {
            before
        }
    }
}

/// The table from mesh assets to draw objects.
pub open spec fn is_mesh_table(
    sources: Seq<Source>,
    k: nat,
    table: Map<u32, Vec<usize>>,
) -> bool {
    forall|id: u32|
        if #[trigger] table.dom().contains(id) {
            table[id]@ == draws_of(sources, k, id) && table[id]@.len() > 0
        } else {
            draws_of(sources, k, id).len() == 0
        }
}

/// The geometry fields of a draw: the slices of the source at position `k`.
pub open spec fn slices_at(
    meshes: Seq<LoadedMesh>,
    k: int,
    vertex_offset: usize,
    vertex_count: usize,
    index_offset: usize,
    index_count: usize,
) -> bool {
    &&& vertex_offset == vertex_bytes(packed_vertices(meshes.subrange(0, k)).len() as int)
    &&& vertex_count == meshes[k].vertices@.len()
    &&& index_offset == packed_indices(meshes.subrange(0, k)).len()
    &&& index_count == meshes[k].indices@.len()
}

/// The alternate slices of the source at position `k`.
pub open spec fn lods_at(meshes: Seq<LoadedMesh>, k: int) -> Seq<LodSlice> {
    lod_slices(meshes[k], packed_indices(meshes.subrange(0, k)).len() as int)
}

/// The box that `transform` gives for a mesh under a matrix.
pub open spec fn moved_box<F: Fn(Vec3, Vec3, Mat4) -> (Vec3, Vec3)>(
    transform: F,
    mesh: LoadedMesh,
    matrix: Mat4,
    lo: Vec3,
    hi: Vec3,
) -> bool {
    exists|l: Vec3, h: Vec3|
        #[trigger] bounds(mesh.vertices@, l, h) && call_ensures(transform, (l, h, matrix), (lo, hi))
}

/// The draw object of the source at position `k`.
pub open spec fn is_object<F: Fn(Vec3, Vec3, Mat4) -> (Vec3, Vec3)>(
    inputs: SceneInputs,
    transform: F,
    sources: Seq<Source>,
    k: int,
    obj: DrawObject,
) -> bool {
    let meshes = inputs.geometry(sources);
    &&& slices_at(
        meshes,
        k,
        obj.vertex_offset,
        obj.vertex_count,
        obj.index_offset,
        obj.index_count,
    )
    &&& obj.base_vertex == 0
    &&& obj.visible
    &&& obj.resident
    &&& match sources[k] {
        Source::Placed { prop, mesh, look } => {
            let p = inputs.props@[prop as int];
            let matrix = inputs.world_mats@[prop as int];
            &&& obj.model == matrix
            &&& obj.texture_slot == look.texture_slot
            &&& obj.normal_map_slot == look.normal_map_slot
            &&& obj.material == look.uniforms
            &&& obj.cull_distance == p.cull_distance
            &&& obj.lod_alternates@ == lods_at(meshes, k)
            &&& if dynamic(p) || inputs.always_resident_meshes@.contains(mesh) {
                unculled(obj.bb_min, obj.bb_max)
            } else {
                moved_box(transform, meshes[k], matrix, obj.bb_min, obj.bb_max)
            }
        },
        Source::Loose { .. } => {
            &&& obj.model == inputs.identity
            &&& obj.texture_slot == 0
            &&& obj.normal_map_slot == 0
            &&& obj.material == inputs.default_material
            &&& obj.cull_distance == crate::float_bits::zero()
            &&& obj.lod_alternates@.len() == 0
            &&& unculled(obj.bb_min, obj.bb_max)
        },
        Source::Room { texture_slot, .. } => {
            &&& obj.model == inputs.identity
            &&& obj.texture_slot == texture_slot
            &&& obj.normal_map_slot == 0
            &&& obj.material == inputs.default_material
            &&& obj.cull_distance == crate::float_bits::zero()
            &&& obj.lod_alternates@ == lods_at(meshes, k)
            &&& unculled(obj.bb_min, obj.bb_max)
        },
        Source::Batch { .. } => false,
    }
}

/// The least corner along an axis of a list of boxes.
pub open spec fn union_min(boxes: Seq<(Vec3, Vec3)>, axis: int) -> FloatBits
    decreases boxes.len(),
{
    if boxes.len() == 0 {
        crate::float_bits::infinity()
    } else {
        union_min(boxes.drop_last(), axis).lesser(boxes.last().0[axis])
    }
}

/// The greatest corner along an axis of a list of boxes.
pub open spec fn union_max(boxes: Seq<(Vec3, Vec3)>, axis: int) -> FloatBits
    decreases boxes.len(),
{
    if boxes.len() == 0 {
        crate::float_bits::neg_infinity()
    } else {
        union_max(boxes.drop_last(), axis).greater(boxes.last().1[axis])
    }
}

/// `lo` and `hi` bound the boxes that `transform` gives for a local box under each
/// matrix.
pub open spec fn is_cluster_box<F: Fn(Vec3, Vec3, Mat4) -> (Vec3, Vec3)>(
    transform: F,
    local_lo: Vec3,
    local_hi: Vec3,
    matrices: Seq<Mat4>,
    lo: Vec3,
    hi: Vec3,
) -> bool {
    exists|boxes: Seq<(Vec3, Vec3)>|
        #![trigger moves_all(transform, local_lo, local_hi, matrices, boxes)]
        moves_all(transform, local_lo, local_hi, matrices, boxes) && forall|a: int|
            0 <= a < 3 ==> #[trigger] lo[a] == union_min(boxes, a) && hi[a] == union_max(boxes, a)
}

/// `boxes` are what `transform` gives for a local box under each matrix.
pub open spec fn moves_all<F: Fn(Vec3, Vec3, Mat4) -> (Vec3, Vec3)>(
    transform: F,
    local_lo: Vec3,
    local_hi: Vec3,
    matrices: Seq<Mat4>,
    boxes: Seq<(Vec3, Vec3)>,
) -> bool {
    &&& boxes.len() == matrices.len()
    &&& forall|i: int|
        0 <= i < matrices.len() ==> call_ensures(
            transform,
            (local_lo, local_hi, matrices[i]),
            #[trigger] boxes[i],
        )
}

/// The instanced cluster of the source at position `k`.
pub open spec fn is_cluster<F: Fn(Vec3, Vec3, Mat4) -> (Vec3, Vec3)>(
    inputs: SceneInputs,
    transform: F,
    sources: Seq<Source>,
    k: int,
    c: InstancedCluster,
) -> bool {
    let meshes = inputs.geometry(sources);
    &&& slices_at(meshes, k, c.vertex_offset, c.vertex_count, c.index_offset, c.index_count)
    &&& c.lod_alternates@ == lods_at(meshes, k)
    &&& match sources[k] {
        Source::Batch { inst, look, .. } => {
            let p = inputs.instanced_props@[inst as int];
            &&& c.texture_slot == look.texture_slot
            &&& c.normal_map_slot == look.normal_map_slot
            &&& c.material == look.uniforms
            &&& c.cull_distance == p.cull_distance
            &&& c.instances@ == p.instances@
            &&& bounds(meshes[k].vertices@, c.local_bb_min, c.local_bb_max)
            &&& is_cluster_box(
                transform,
                c.local_bb_min,
                c.local_bb_max,
                p.instances@,
                c.cluster_bb_min,
                c.cluster_bb_max,
            )
        },
        _ => false,
    }
}

/// The result of [`build_draw_list`].
#[derive(Debug)]
pub struct DrawListData {
    pub vertices: Vec<Vertex>,
    pub indices: Vec<u32>,
    pub draw_objects: Vec<DrawObject>,
    pub instanced_clusters: Vec<InstancedCluster>,
    /// The draw objects of each prop.
    pub prop_draw_indices: Vec<Vec<usize>>,
    /// The draw objects that got a copy of each mesh.
    pub mesh_id_to_draws: HashMap<u32, Vec<usize>>,
}

/// The source at position `k` has its draw object or cluster, at its rank.
pub open spec fn drawn(
    sources: Seq<Source>,
    k: int,
    objects: Seq<DrawObject>,
    clusters: Seq<InstancedCluster>,
    is_obj: spec_fn(int, DrawObject) -> bool,
    is_clu: spec_fn(int, InstancedCluster) -> bool,
) -> bool {
    if sources[k] is Batch {
        is_clu(k, clusters[cluster_rank(sources, k as nat) as int])
    } else {
        is_obj(k, objects[object_rank(sources, k as nat) as int])
    }
}

/// Each of the first `n` sources has its draw object or cluster, and there are no
/// others.
pub open spec fn draws_by(
    sources: Seq<Source>,
    n: nat,
    objects: Seq<DrawObject>,
    clusters: Seq<InstancedCluster>,
    is_obj: spec_fn(int, DrawObject) -> bool,
    is_clu: spec_fn(int, InstancedCluster) -> bool,
) -> bool {
    &&& objects.len() == object_rank(sources, n)
    &&& clusters.len() == cluster_rank(sources, n)
    &&& forall|k: int|
        0 <= k < n ==> #[trigger] drawn(sources, k, objects, clusters, is_obj, is_clu)
}

/// The draw objects and clusters of the first `n` sources.
pub open spec fn draws_first<F: Fn(Vec3, Vec3, Mat4) -> (Vec3, Vec3)>(
    inputs: SceneInputs,
    transform: F,
    sources: Seq<Source>,
    n: nat,
    objects: Seq<DrawObject>,
    clusters: Seq<InstancedCluster>,
) -> bool {
    draws_by(
        sources,
        n,
        objects,
        clusters,
        |k: int, o: DrawObject| is_object(inputs, transform, sources, k, o),
        |k: int, c: InstancedCluster| is_cluster(inputs, transform, sources, k, c),
    )
}

impl SceneInputs {
    /// The number of draws of the first `i` props.
    pub open spec fn draws_before(&self, i: nat) -> nat {
        match self.placed(i) {
            Ok(s) => s.len(),
            Err(_) => 0,
        }
    }

    /// The draw objects of each of the first `n` props: consecutive, in prop order.
    pub open spec fn is_prop_table(&self, n: nat, table: Seq<Vec<usize>>) -> bool {
        &&& table.len() == n
        &&& forall|i: int|
            0 <= i < n ==> (#[trigger] table[i])@ == Seq::new(
                (self.draws_before((i + 1) as nat) - self.draws_before(i as nat)) as nat,
                |j: int| (self.draws_before(i as nat) + j) as usize,
            )
    }

    /// Whether `out` is the draw list of these inputs.
    pub open spec fn is_draw_list<F: Fn(Vec3, Vec3, Mat4) -> (Vec3, Vec3)>(
        &self,
        transform: F,
        sources: Seq<Source>,
        out: DrawListData,
    ) -> bool {
        &&& out.vertices@ == packed_vertices(self.geometry(sources))
        &&& out.indices@ == packed_indices(self.geometry(sources))
        &&& draws_first(
            *self,
            transform,
            sources,
            sources.len(),
            out.draw_objects@,
            out.instanced_clusters@,
        )
        &&& self.is_prop_table(self.props@.len(), out.prop_draw_indices@)
        &&& is_mesh_table(sources, sources.len(), out.mesh_id_to_draws@)
    }

    /// The buffers of the draw list fit the machine: every rebased index fits a
    /// 32-bit index and every byte offset a pointer-sized integer.
    pub open spec fn fits_in(&self, order: Seq<AssetId>) -> bool {
        self.sources(order) matches Ok(s) ==> {
            let n = packed_vertices(self.geometry(s)).len() as int;
            n + 0xffff <= u32::MAX && vertex_bytes(n) <= usize::MAX
        }
    }

    /// The buffers fit in whichever order the meshes are walked.
    pub open spec fn fits(&self) -> bool {
        forall|order: Seq<AssetId>| #[trigger] self.is_order(order) ==> self.fits_in(order)
    }

    /// Append what the sub-meshes of a model are drawn as.
    fn resolve_model(
        &self,
        prop: usize,
        model: AssetId,
        subs: &Vec<SubMeshRef>,
        out: &mut Vec<Source>,
    ) -> (r: Result<(), DrawListError>)
        ensures
            match self.sub_sources(prop as int, model, subs@, subs@.len()) {
                Ok(s) => r is Ok && final(out)@ == old(out)@ + s,
                Err(e) => r == Err::<(), DrawListError>(e),
            },
    {
        let ghost was = out@;
        let mut j: usize = 0;
        while j < subs.len()
            invariant
                j <= subs@.len(),
                self.sub_sources(prop as int, model, subs@, j as nat) is Ok,
                out@ == was + self.sub_sources(prop as int, model, subs@, j as nat)->Ok_0,
            decreases subs@.len() - j,
        {
            let sub: SubMeshRef = subs[j];
            let ghost so_far = self.sub_sources(prop as int, model, subs@, j as nat)->Ok_0;
            match sub.mesh {
                None => {
                    proof {
                        self.lemma_sub_error(prop as int, model, subs@, j as nat, subs@.len());
                    }
                    return Err(DrawListError::SubMeshWithoutMesh { model });
                },
                Some(mesh) => {
                    if lookup(&self.mesh_geometry, mesh).is_none() {
                        proof {
                            self.lemma_sub_error(prop as int, model, subs@, j as nat, subs@.len());
                        }
                        return Err(DrawListError::UnknownSubMesh { model, mesh });
                    }
                    match self.find_look(sub.material, None) {
                        Err(missing) => {
                            proof {
                                self.lemma_sub_error(
                                    prop as int,
                                    model,
                                    subs@,
                                    j as nat,
                                    subs@.len(),
                                );
                            }
                            return match missing {
                                MissingLook::Material(material) => Err(
                                    DrawListError::UnknownSubMaterial { model, material },
                                ),
                                MissingLook::Texture(texture) => Err(
                                    DrawListError::UnknownTexture { owner: model, texture },
                                ),
                            };
                        },
                        Ok(look) => {
                            let src = Source::Placed { prop, mesh, look };
                            assert(self.sub_source(prop as int, model, sub) == Ok::<
                                Source,
                                DrawListError,
                            >(src));
                            out.push(src);
                            assert(out@ =~= was + so_far.push(src));
                        },
                    }
                },
            }
            j = j + 1;
        }
        Ok(())
    }

    proof fn lemma_sub_error(
        &self,
        prop: int,
        model: AssetId,
        subs: Seq<SubMeshRef>,
        j: nat,
        n: nat,
    )
        requires
            j < n,
            self.sub_sources(prop, model, subs, j) is Ok,
            self.sub_source(prop, model, subs[j as int]) is Err,
        ensures
            self.sub_sources(prop, model, subs, n) == Err::<Seq<Source>, DrawListError>(
                self.sub_source(prop, model, subs[j as int])->Err_0,
            ),
        decreases n - j,
    {
        if n > j + 1 {
            self.lemma_sub_error(prop, model, subs, j, (n - 1) as nat);
        }
    }

    /// Append what one prop is drawn as.
    fn resolve_prop(&self, i: usize, out: &mut Vec<Source>) -> (r: Result<(), DrawListError>)
        requires
            i < self.props@.len(),
        ensures
            match self.prop_sources(i as int) {
                Ok(s) => r is Ok && final(out)@ == old(out)@ + s,
                Err(e) => r == Err::<(), DrawListError>(e),
            },
    {
        let prop: Prop = self.props[i];
        match prop.model {
            Some(model) => match lookup(&self.model_map, model) {
                None => Err(DrawListError::UnknownModel { prop: prop.asset_id, model }),
                Some(subs) => self.resolve_model(i, model, subs, out),
            },
            None => match prop.mesh {
                None => Err(DrawListError::PropWithoutMesh { prop: prop.asset_id }),
                Some(mesh) => {
                    if lookup(&self.mesh_geometry, mesh).is_none() {
                        return Err(DrawListError::UnknownMesh { prop: prop.asset_id, mesh });
                    }
                    match self.find_look(prop.material, prop.texture) {
                        Err(MissingLook::Material(material)) => Err(
                            DrawListError::UnknownMaterial { prop: prop.asset_id, material },
                        ),
                        Err(MissingLook::Texture(texture)) => Err(
                            DrawListError::UnknownTexture { owner: prop.asset_id, texture },
                        ),
                        Ok(look) => {
                            let ghost was = out@;
                            out.push(Source::Placed { prop: i, mesh, look });
                            assert(out@ =~= was + seq![Source::Placed { prop: i, mesh, look }]);
                            Ok(())
                        },
                    }
                },
            },
        }
    }

    proof fn lemma_placed_error(&self, j: nat, n: nat)
        requires
            j < n,
            self.placed(j) is Ok,
            self.prop_sources(j as int) is Err,
        ensures
            self.placed(n) == Err::<Seq<Source>, DrawListError>(self.prop_sources(j as int)->Err_0),
        decreases n - j,
    {
        if n > j + 1 {
            self.lemma_placed_error(j, (n - 1) as nat);
        }
    }

    proof fn lemma_batch_error(&self, j: nat, n: nat)
        requires
            j <= n,
            self.batches(j) is Err,
        ensures
            self.batches(n) == self.batches(j),
        decreases n - j,
    {
        if n > j {
            self.lemma_batch_error(j, (n - 1) as nat);
        }
    }

    /// Append what the props are drawn as, and list each prop's draws.
    fn resolve_props(&self, out: &mut Vec<Source>) -> (r: Result<Vec<Vec<usize>>, DrawListError>)
        requires
            old(out)@.len() == 0,
        ensures
            match self.placed(self.props@.len()) {
                Ok(s) => {
                    &&& r is Ok
                    &&& final(out)@ == s
                    &&& self.is_prop_table(self.props@.len(), r->Ok_0@)
                },
                Err(e) => r == Err::<Vec<Vec<usize>>, DrawListError>(e),
            },
    {
        let mut table: Vec<Vec<usize>> = Vec::new();
        let mut i: usize = 0;
        assert(out@ =~= Seq::<Source>::empty());
        while i < self.props.len()
            invariant
                i <= self.props@.len(),
                self.placed(i as nat) == Ok::<Seq<Source>, DrawListError>(out@),
                self.is_prop_table(i as nat, table@),
            decreases self.props@.len() - i,
        {
            let ghost was = out@;
            let start: usize = out.len();
            match self.resolve_prop(i, out) {
                Err(e) => {
                    proof {
                        self.lemma_placed_error(i as nat, self.props@.len());
                    }
                    return Err(e);
                },
                Ok(_) => {},
            }
            let end: usize = out.len();
            let mut own: Vec<usize> = Vec::new();
            let mut j: usize = start;
            while j < end
                invariant
                    start <= j <= end,
                    own@ == Seq::new((j - start) as nat, |x: int| (start + x) as usize),
                decreases end - j,
            {
                own.push(j);
                j = j + 1;
                assert(own@ =~= Seq::new((j - start) as nat, |x: int| (start + x) as usize));
            }
            let ghost table_was = table@;
            table.push(own);
            proof {
                assert(self.placed((i + 1) as nat) == Ok::<Seq<Source>, DrawListError>(out@));
                assert(self.draws_before(i as nat) == start);
                assert(self.draws_before((i + 1) as nat) == end);
                assert forall|p: int| 0 <= p < i + 1 implies (#[trigger] table@[p])@ == Seq::new(
                    (self.draws_before((p + 1) as nat) - self.draws_before(p as nat)) as nat,
                    |x: int| (self.draws_before(p as nat) + x) as usize,
                ) by {
                    if p < i {
                        assert(table@[p] == table_was[p]);
                    } else {
                        assert(own@ =~= Seq::new(
                            (self.draws_before((p + 1) as nat) - self.draws_before(
                                p as nat,
                            )) as nat,
                            |x: int| (self.draws_before(p as nat) + x) as usize,
                        ));
                    }
                }
            }
            i = i + 1;
        }
        Ok(table)
    }

    /// Append what the instanced props are drawn as.
    fn resolve_batches(&self, out: &mut Vec<Source>) -> (r: Result<(), DrawListError>)
        ensures
            match self.batches(self.instanced_props@.len()) {
                Ok(s) => r is Ok && final(out)@ == old(out)@ + s,
                Err(e) => r == Err::<(), DrawListError>(e),
            },
    {
        let ghost was = out@;
        let mut i: usize = 0;
        assert(out@ =~= was + Seq::<Source>::empty());
        while i < self.instanced_props.len()
            invariant
                i <= self.instanced_props@.len(),
                self.batches(i as nat) is Ok,
                out@ == was + self.batches(i as nat)->Ok_0,
            decreases self.instanced_props@.len() - i,
        {
            let inst: &InstancedProp = &self.instanced_props[i];
            let ghost so_far = self.batches(i as nat)->Ok_0;
            match inst.mesh {
                None => {},
                Some(mesh) => {
                    if inst.instances.len() > 0 {
                        if lookup(&self.mesh_geometry, mesh).is_none() {
                            proof {
                                self.lemma_batch_error((i + 1) as nat, self.instanced_props@.len());
                            }
                            return Err(
                                DrawListError::UnknownInstancedMesh { prop: inst.asset_id, mesh },
                            );
                        }
                        match self.find_look(inst.material, inst.texture) {
                            Err(missing) => {
                                proof {
                                    self.lemma_batch_error(
                                        (i + 1) as nat,
                                        self.instanced_props@.len(),
                                    );
                                }
                                return match missing {
                                    MissingLook::Material(material) => Err(
                                        DrawListError::UnknownInstancedMaterial {
                                            prop: inst.asset_id,
                                            material,
                                        },
                                    ),
                                    MissingLook::Texture(texture) => Err(
                                        DrawListError::UnknownTexture {
                                            owner: inst.asset_id,
                                            texture,
                                        },
                                    ),
                                };
                            },
                            Ok(look) => {
                                let src = Source::Batch { inst: i, mesh, look };
                                out.push(src);
                                assert(out@ =~= was + so_far.push(src));
                            },
                        }
                    }
                },
            }
            i = i + 1;
        }
        Ok(())
    }

    /// The meshes that something refers to.
    fn referenced_meshes(&self) -> (r: HashSet<u32>)
        ensures
            forall|m: u32| #[trigger] r@.contains(m) <==> self.referenced(m),
    {
        broadcast use vstd::std_specs::hash::group_hash_axioms;

        let mut set: HashSet<u32> = HashSet::new();
        let mut i: usize = 0;
        while i < self.props.len()
            invariant
                i <= self.props@.len(),
                forall|m: u32| #[trigger]
                    set@.contains(m) <==> exists|k: int|
                        0 <= k < i && self.prop_refers(#[trigger] self.props@[k], m),
            decreases self.props@.len() - i,
        {
            broadcast use vstd::std_specs::hash::group_hash_axioms;

            let prop: Prop = self.props[i];
            let ghost was = set@;
            match prop.mesh {
                Some(m) => {
                    set.insert(m);
                },
                None => {},
            }
            let ghost with_own = set@;
            match prop.model {
                Some(model) => match lookup(&self.model_map, model) {
                    Some(subs) => {
                        let mut j: usize = 0;
                        while j < subs.len()
                            invariant
                                j <= subs@.len(),
                                forall|m: u32| #[trigger]
                                    set@.contains(m) <==> with_own.contains(m) || subs_refer(
                                        subs@.subrange(0, j as int),
                                        m,
                                    ),
                            decreases subs@.len() - j,
                        {
                            broadcast use vstd::std_specs::hash::group_hash_axioms;

                            let sub: SubMeshRef = subs[j];
                            let ghost inner_was = set@;
                            match sub.mesh {
                                Some(m) => {
                                    set.insert(m);
                                },
                                None => {},
                            }
                            proof {
                                let head = subs@.subrange(0, j as int);
                                let next = subs@.subrange(0, j + 1);
                                assert forall|m: u32| #[trigger] set@.contains(m)
                                    <==> with_own.contains(m) || subs_refer(next, m) by {
                                    assert(inner_was.contains(m) <==> with_own.contains(m)
                                        || subs_refer(head, m));
                                    if subs_refer(head, m) {
                                        let x = choose|x: int|
                                            0 <= x < head.len() && (#[trigger] head[x]).mesh
                                                == Some(m);
                                        assert(next[x].mesh == Some(m));
                                    }
                                    if subs_refer(next, m) {
                                        let x = choose|x: int|
                                            0 <= x < next.len() && (#[trigger] next[x]).mesh
                                                == Some(m);
                                        if x < j {
                                            assert(head[x].mesh == Some(m));
                                        }
                                    }
                                    if sub.mesh == Some(m) {
                                        assert(next[j as int].mesh == Some(m));
                                    }
                                }
                            }
                            j = j + 1;
                        }
                        assert(subs@.subrange(0, j as int) =~= subs@);
                    },
                    None => {},
                },
                None => {},
            }
            proof {
                assert forall|m: u32| #[trigger] set@.contains(m) <==> exists|k: int|
                    0 <= k < i + 1 && self.prop_refers(#[trigger] self.props@[k], m) by {
                    assert(set@.contains(m) <==> was.contains(m) || self.prop_refers(prop, m));
                    if was.contains(m) {
                        let k = choose|k: int|
                            0 <= k < i && self.prop_refers(#[trigger] self.props@[k], m);
                        assert(self.prop_refers(self.props@[k], m));
                    }
                    if self.prop_refers(prop, m) {
                        assert(self.prop_refers(self.props@[i as int], m));
                    }
                }
            }
            i = i + 1;
        }
        let ghost from_props = set@;
        let mut i: usize = 0;
        while i < self.instanced_props.len()
            invariant
                i <= self.instanced_props@.len(),
                forall|m: u32| #[trigger]
                    set@.contains(m) <==> from_props.contains(m) || exists|k: int|
                        0 <= k < i && (#[trigger] self.instanced_props@[k]).mesh == Some(m),
            decreases self.instanced_props@.len() - i,
        {
            broadcast use vstd::std_specs::hash::group_hash_axioms;

            let ghost was = set@;
            match self.instanced_props[i].mesh {
                Some(m) => {
                    set.insert(m);
                },
                None => {},
            }
            proof {
                assert forall|m: u32| #[trigger] set@.contains(m) <==> from_props.contains(m)
                    || exists|k: int|
                    0 <= k < i + 1 && (#[trigger] self.instanced_props@[k]).mesh == Some(m) by {
                    if was.contains(m) && !from_props.contains(m) {
                        let k = choose|k: int|
                            0 <= k < i && (#[trigger] self.instanced_props@[k]).mesh == Some(m);
                        assert(self.instanced_props@[k].mesh == Some(m));
                    }
                    if self.instanced_props@[i as int].mesh == Some(m) {
                        assert(set@.contains(m));
                    }
                }
            }
            i = i + 1;
        }
        set
    }

    /// Append the unreferenced meshes.
    fn resolve_loose(&self, order: &Vec<AssetId>, out: &mut Vec<Source>)
        ensures
            final(out)@ == old(out)@ + self.loose(order@, order@.len()),
    {
        let referenced: HashSet<u32> = self.referenced_meshes();
        let ghost was = out@;
        let mut i: usize = 0;
        assert(out@ =~= was + Seq::<Source>::empty());
        while i < order.len()
            invariant
                i <= order@.len(),
                forall|m: u32| #[trigger] referenced@.contains(m) <==> self.referenced(m),
                out@ == was + self.loose(order@, i as nat),
            decreases order@.len() - i,
        {
            let mesh: AssetId = order[i];
            let ghost so_far = self.loose(order@, i as nat);
            if !holds(&referenced, mesh) {
                let src = Source::Loose { mesh };
                out.push(src);
                assert(out@ =~= was + so_far.push(src));
            }
            i = i + 1;
        }
    }

    proof fn lemma_room_error(&self, j: nat, n: nat)
        requires
            j <= n,
            self.rooms(j) is Err,
        ensures
            self.rooms(n) == self.rooms(j),
        decreases n - j,
    {
        if n > j {
            self.lemma_room_error(j, (n - 1) as nat);
        }
    }

    /// Append what the rooms are drawn as.
    fn resolve_rooms(&self, out: &mut Vec<Source>) -> (r: Result<(), DrawListError>)
        ensures
            match self.rooms(self.room_geometry@.len()) {
                Ok(s) => r is Ok && final(out)@ == old(out)@ + s,
                Err(e) => r == Err::<(), DrawListError>(e),
            },
    {
        let ghost was = out@;
        let mut i: usize = 0;
        assert(out@ =~= was + Seq::<Source>::empty());
        while i < self.room_geometry.len()
            invariant
                i <= self.room_geometry@.len(),
                self.rooms(i as nat) is Ok,
                out@ == was + self.rooms(i as nat)->Ok_0,
            decreases self.room_geometry@.len() - i,
        {
            let room: &RoomGeometry = &self.room_geometry[i];
            let ghost so_far = self.rooms(i as nat)->Ok_0;
            let texture_slot: usize = match self.find_texture(room.texture) {
                Some(slot) => slot,
                None => {
                    proof {
                        self.lemma_room_error((i + 1) as nat, self.room_geometry@.len());
                    }
                    return Err(
                        DrawListError::UnknownTexture {
                            owner: room.asset_id,
                            texture: room.texture.unwrap(),
                        },
                    );
                },
            };
            let src = Source::Room { room: i, texture_slot };
            out.push(src);
            assert(out@ =~= was + so_far.push(src));
            i = i + 1;
        }
        Ok(())
    }

    proof fn lemma_subs_valid(
        &self,
        prop: int,
        model: AssetId,
        subs: Seq<SubMeshRef>,
        k: nat,
    )
        requires
            0 <= prop < self.props@.len() <= usize::MAX,
            self.sub_sources(prop, model, subs, k) is Ok,
        ensures
            forall|i: int|
                0 <= i < self.sub_sources(prop, model, subs, k)->Ok_0.len() ==> self.valid(
                    #[trigger] self.sub_sources(prop, model, subs, k)->Ok_0[i],
                ) && self.sub_sources(prop, model, subs, k)->Ok_0[i] is Placed,
        decreases k,
    {
        if k > 0 {
            self.lemma_subs_valid(prop, model, subs, (k - 1) as nat);
        }
    }

    proof fn lemma_placed_valid(&self, k: nat)
        requires
            k <= self.props@.len() <= usize::MAX,
            self.placed(k) is Ok,
        ensures
            forall|i: int|
                0 <= i < self.placed(k)->Ok_0.len() ==> self.valid(
                    #[trigger] self.placed(k)->Ok_0[i],
                ) && self.placed(k)->Ok_0[i] is Placed,
        decreases k,
    {
        if k > 0 {
            self.lemma_placed_valid((k - 1) as nat);
            let prop = self.props@[k - 1];
            if prop.model is Some {
                let model = prop.model->0;
                let subs = self.model_map@[model]@;
                self.lemma_subs_valid(k - 1, model, subs, subs.len());
            }
        }
    }

    proof fn lemma_batches_valid(&self, k: nat)
        requires
            k <= self.instanced_props@.len() <= usize::MAX,
            self.batches(k) is Ok,
        ensures
            forall|i: int|
                0 <= i < self.batches(k)->Ok_0.len() ==> self.valid(
                    #[trigger] self.batches(k)->Ok_0[i],
                ) && self.batches(k)->Ok_0[i] is Batch,
        decreases k,
    {
        if k > 0 {
            self.lemma_batches_valid((k - 1) as nat);
        }
    }

    proof fn lemma_loose_valid(&self, order: Seq<AssetId>, k: nat)
        requires
            self.is_order(order),
            k <= order.len(),
        ensures
            forall|i: int|
                0 <= i < self.loose(order, k).len() ==> self.valid(
                    #[trigger] self.loose(order, k)[i],
                ) && self.loose(order, k)[i] is Loose,
        decreases k,
    {
        if k > 0 {
            self.lemma_loose_valid(order, (k - 1) as nat);
            assert(order.to_set().contains(order[k - 1]));
        }
    }

    proof fn lemma_rooms_valid(&self, k: nat)
        requires
            k <= self.room_geometry@.len() <= usize::MAX,
            self.rooms(k) is Ok,
        ensures
            forall|i: int|
                0 <= i < self.rooms(k)->Ok_0.len() ==> self.valid(#[trigger] self.rooms(k)->Ok_0[i]),
        decreases k,
    {
        if k > 0 {
            self.lemma_rooms_valid((k - 1) as nat);
        }
    }

    /// Every source has its parts.
    pub proof fn lemma_sources_valid(&self, order: Seq<AssetId>)
        requires
            self.is_order(order),
            self.sources(order) is Ok,
            self.props@.len() <= usize::MAX,
            self.instanced_props@.len() <= usize::MAX,
            self.room_geometry@.len() <= usize::MAX,
        ensures
            forall|i: int|
                0 <= i < self.sources(order)->Ok_0.len() ==> self.valid(
                    #[trigger] self.sources(order)->Ok_0[i],
                ),
    {
        self.lemma_placed_valid(self.props@.len());
        self.lemma_batches_valid(self.instanced_props@.len());
        self.lemma_loose_valid(order, order.len());
        self.lemma_rooms_valid(self.room_geometry@.len());
        let r = self.rooms(self.room_geometry@.len())->Ok_0;
        let p = self.placed(self.props@.len())->Ok_0;
        let b = self.batches(self.instanced_props@.len())->Ok_0;
        let l = self.loose(order, order.len());
        let s = self.sources(order)->Ok_0;
        assert forall|i: int| 0 <= i < s.len() implies self.valid(#[trigger] s[i]) by {
            if i < p.len() {
                assert(s[i] == p[i]);
            } else if i < p.len() + b.len() {
                assert(s[i] == b[i - p.len()]);
            } else if i < p.len() + b.len() + l.len() {
                assert(s[i] == l[i - p.len() - b.len()]);
            } else {
                assert(s[i] == r[i - p.len() - b.len() - l.len()]);
            }
        }
    }

    /// The geometry of a source.
    fn find_geometry(&self, src: Source) -> (r: &LoadedMesh)
        requires
            self.valid(src),
        ensures
            *r == self.geometry_of(src),
    {
        match src {
            Source::Room { room, .. } => &self.room_geometry[room].mesh,
            Source::Placed { mesh, .. } => lookup(&self.mesh_geometry, mesh).unwrap(),
            Source::Batch { mesh, .. } => lookup(&self.mesh_geometry, mesh).unwrap(),
            Source::Loose { mesh } => lookup(&self.mesh_geometry, mesh).unwrap(),
        }
    }
}

/// The union of the boxes that `transform` gives for a local box under each
/// matrix.
fn cluster_bounds<F: Fn(Vec3, Vec3, Mat4) -> (Vec3, Vec3)>(
    transform: &F,
    lo: Vec3,
    hi: Vec3,
    matrices: &Vec<Mat4>,
) -> (r: (Vec3, Vec3))
    requires
        forall|a: Vec3, b: Vec3, m: Mat4| #[trigger] call_requires(*transform, (a, b, m)),
    ensures
        is_cluster_box(*transform, lo, hi, matrices@, r.0, r.1),
{
    let mut x0: FloatBits = FloatBits::new(0x7f80_0000);
    let mut y0: FloatBits = FloatBits::new(0x7f80_0000);
    let mut z0: FloatBits = FloatBits::new(0x7f80_0000);
    let mut x1: FloatBits = FloatBits::new(0xff80_0000);
    let mut y1: FloatBits = FloatBits::new(0xff80_0000);
    let mut z1: FloatBits = FloatBits::new(0xff80_0000);
    let ghost mut boxes: Seq<(Vec3, Vec3)> = Seq::empty();
    let mut i: usize = 0;
    while i < matrices.len()
        invariant
            i <= matrices@.len(),
            forall|a: Vec3, b: Vec3, m: Mat4| #[trigger] call_requires(*transform, (a, b, m)),
            boxes.len() == i,
            forall|k: int|
                0 <= k < i ==> call_ensures(*transform, (lo, hi, matrices@[k]), #[trigger] boxes[k]),
            x0 == union_min(boxes, 0),
            y0 == union_min(boxes, 1),
            z0 == union_min(boxes, 2),
            x1 == union_max(boxes, 0),
            y1 == union_max(boxes, 1),
            z1 == union_max(boxes, 2),
        decreases matrices@.len() - i,
    {
        let b: (Vec3, Vec3) = transform(lo, hi, matrices[i]);
        x0 = x0.min(b.0[0]);
        y0 = y0.min(b.0[1]);
        z0 = z0.min(b.0[2]);
        x1 = x1.max(b.1[0]);
        y1 = y1.max(b.1[1]);
        z1 = z1.max(b.1[2]);
        proof {
            let next = boxes.push(b);
            assert(next.drop_last() =~= boxes);
            boxes = next;
        }
        i = i + 1;
    }
    assert(moves_all(*transform, lo, hi, matrices@, boxes));
    ([x0, y0, z0], [x1, y1, z1])
}

/// Object ranks only grow.
proof fn lemma_rank_bounds(sources: Seq<Source>, k: nat)
    ensures
        object_rank(sources, k) <= k,
    decreases k,
{
    if k > 0 {
        lemma_rank_bounds(sources, (k - 1) as nat);
    }
}

proof fn lemma_rank_below(sources: Seq<Source>, k: nat, n: nat)
    requires
        k < n,
    ensures
        object_rank(sources, k) <= object_rank(sources, n),
        cluster_rank(sources, k) <= cluster_rank(sources, n),
        !(sources[k as int] is Batch) ==> object_rank(sources, k) < object_rank(sources, n),
        sources[k as int] is Batch ==> cluster_rank(sources, k) < cluster_rank(sources, n),
    decreases n - k,
{
    lemma_rank_bounds(sources, k);
    lemma_rank_bounds(sources, n);
    lemma_rank_bounds(sources, (n - 1) as nat);
    if n > k + 1 {
        lemma_rank_below(sources, k, (n - 1) as nat);
    }
}

/// Adding one draw to the lists.
proof fn lemma_draws_grow(
    sources: Seq<Source>,
    n: nat,
    objects: Seq<DrawObject>,
    clusters: Seq<InstancedCluster>,
    objects2: Seq<DrawObject>,
    clusters2: Seq<InstancedCluster>,
    is_obj: spec_fn(int, DrawObject) -> bool,
    is_clu: spec_fn(int, InstancedCluster) -> bool,
)
    requires
        n < sources.len(),
        draws_by(sources, n, objects, clusters, is_obj, is_clu),
        sources[n as int] is Batch ==> objects2 == objects && clusters2.len() == clusters.len() + 1
            && clusters2.drop_last() == clusters && is_clu(n as int, clusters2.last()),
        !(sources[n as int] is Batch) ==> clusters2 == clusters && objects2.len() == objects.len()
            + 1 && objects2.drop_last() == objects && is_obj(n as int, objects2.last()),
    ensures
        draws_by(sources, n + 1, objects2, clusters2, is_obj, is_clu),
{
    lemma_rank_bounds(sources, n);
    assert forall|k: int| 0 <= k < n + 1 implies #[trigger] drawn(
        sources,
        k,
        objects2,
        clusters2,
        is_obj,
        is_clu,
    ) by {
        if k < n {
            assert(drawn(sources, k, objects, clusters, is_obj, is_clu));
            lemma_rank_below(sources, k as nat, n);
            if sources[k] is Batch {
                let r = cluster_rank(sources, k as nat) as int;
                if sources[n as int] is Batch {
                    assert(clusters2[r] == clusters2.drop_last()[r]);
                }
            } else {
                let r = object_rank(sources, k as nat) as int;
                if !(sources[n as int] is Batch) {
                    assert(objects2[r] == objects2.drop_last()[r]);
                }
            }
        }
    }
}

/// Adding one source to the mesh table.
proof fn lemma_table_grows(
    sources: Seq<Source>,
    n: nat,
    table: Map<u32, Vec<usize>>,
    table2: Map<u32, Vec<usize>>,
    id: AssetId,
)
    requires
        n < sources.len(),
        is_mesh_table(sources, n, table),
        forall|m: u32| #[trigger] draws_mesh(sources[n as int], m) <==> m == id,
        table2.dom() == table.dom().insert(id),
        table2[id]@ == if table.dom().contains(id) {
            table[id]@.push(object_rank(sources, n) as usize)
        } else {
            seq![object_rank(sources, n) as usize]
        },
        forall|m: u32| m != id && #[trigger] table.dom().contains(m) ==> table2[m] == table[m],
    ensures
        is_mesh_table(sources, n + 1, table2),
{
    assert forall|m: u32| if #[trigger] table2.dom().contains(m) {
        table2[m]@ == draws_of(sources, n + 1, m) && table2[m]@.len() > 0
    } else {
        draws_of(sources, n + 1, m).len() == 0
    } by {
        assert(draws_mesh(sources[n as int], m) <==> m == id);
        if m == id {
            if table.dom().contains(id) {
            } else {
                assert(draws_of(sources, n, id) =~= Seq::<usize>::empty());
                assert(table2[id]@ =~= draws_of(sources, n + 1, id));
            }
        } else {
            assert(table2.dom().contains(m) <==> table.dom().contains(m));
        }
    }
}

/// A source without a mesh entry leaves the mesh table alone.
proof fn lemma_table_stays(sources: Seq<Source>, n: nat, table: Map<u32, Vec<usize>>)
    requires
        n < sources.len(),
        is_mesh_table(sources, n, table),
        forall|m: u32| !#[trigger] draws_mesh(sources[n as int], m),
    ensures
        is_mesh_table(sources, n + 1, table),
{
    assert forall|m: u32| if #[trigger] table.dom().contains(m) {
        table[m]@ == draws_of(sources, n + 1, m) && table[m]@.len() > 0
    } else {
        draws_of(sources, n + 1, m).len() == 0
    } by {
        assert(!draws_mesh(sources[n as int], m));
    }
}

impl SceneInputs {
    /// The draw object of a source, given where its geometry was placed.
    fn object_of<F: Fn(Vec3, Vec3, Mat4) -> (Vec3, Vec3)>(
        &self,
        transform: &F,
        src: Source,
        mesh: &LoadedMesh,
        p: Placement,
        Ghost(sources): Ghost<Seq<Source>>,
        Ghost(k): Ghost<int>,
    ) -> (obj: DrawObject)
        requires
            0 <= k < sources.len(),
            src == sources[k],
            !(src is Batch),
            self.valid(src),
            *mesh == self.geometry(sources)[k],
            p.places(
                *mesh,
                packed_vertices(self.geometry(sources).subrange(0, k)).len(),
                packed_indices(self.geometry(sources).subrange(0, k)).len(),
            ),
            vertex_bytes(p.vertex_start as int) <= usize::MAX,
            self.world_mats@.len() >= self.props@.len(),
            forall|a: Vec3, b: Vec3, m: Mat4| #[trigger] call_requires(*transform, (a, b, m)),
        ensures
            is_object(*self, *transform, sources, k, obj),
    {
        let zero: FloatBits = FloatBits::new(0);
        let vertex_offset: usize = p.vertex_start * VERTEX_BYTES;
        match src {
            Source::Placed { prop, mesh: id, look } => {
                let matrix: Mat4 = self.world_mats[prop];
                let fixed: bool = is_dynamic_prop(&self.props[prop]) || holds(
                    &self.always_resident_meshes,
                    id,
                );
                let (bb_min, bb_max): (Vec3, Vec3) = if fixed {
                    unculled_box()
                } else {
                    let (lo, hi): (Vec3, Vec3) = local_bounds(&mesh.vertices);
                    transform(lo, hi, matrix)
                };
                DrawObject {
                    vertex_offset,
                    vertex_count: p.vertex_count,
                    index_offset: p.index_offset,
                    index_count: p.index_count,
                    base_vertex: 0,
                    model: matrix,
                    texture_slot: look.texture_slot,
                    normal_map_slot: look.normal_map_slot,
                    material: look.uniforms,
                    visible: true,
                    resident: true,
                    bb_min,
                    bb_max,
                    cull_distance: self.props[prop].cull_distance,
                    lod_alternates: p.lods,
                }
            },
            Source::Room { texture_slot, .. } => {
                let (bb_min, bb_max): (Vec3, Vec3) = unculled_box();
                DrawObject {
                    vertex_offset,
                    vertex_count: p.vertex_count,
                    index_offset: p.index_offset,
                    index_count: p.index_count,
                    base_vertex: 0,
                    model: self.identity,
                    texture_slot,
                    normal_map_slot: 0,
                    material: self.default_material,
                    visible: true,
                    resident: true,
                    bb_min,
                    bb_max,
                    cull_distance: zero,
                    lod_alternates: p.lods,
                }
            },
            _ => {
                let (bb_min, bb_max): (Vec3, Vec3) = unculled_box();
                DrawObject {
                    vertex_offset,
                    vertex_count: p.vertex_count,
                    index_offset: p.index_offset,
                    index_count: p.index_count,
                    base_vertex: 0,
                    model: self.identity,
                    texture_slot: 0,
                    normal_map_slot: 0,
                    material: self.default_material,
                    visible: true,
                    resident: true,
                    bb_min,
                    bb_max,
                    cull_distance: zero,
                    lod_alternates: Vec::new(),
                }
            },
        }
    }

    /// The instanced cluster of a batch, given where its geometry was placed.
    fn cluster_of<F: Fn(Vec3, Vec3, Mat4) -> (Vec3, Vec3)>(
        &self,
        transform: &F,
        inst: usize,
        look: MaterialEntry,
        mesh: &LoadedMesh,
        p: Placement,
        Ghost(sources): Ghost<Seq<Source>>,
        Ghost(k): Ghost<int>,
    ) -> (c: InstancedCluster)
        requires
            0 <= k < sources.len(),
            sources[k] matches Source::Batch { inst: i, look: l, .. } && i == inst && l == look,
            inst < self.instanced_props@.len(),
            *mesh == self.geometry(sources)[k],
            p.places(
                *mesh,
                packed_vertices(self.geometry(sources).subrange(0, k)).len(),
                packed_indices(self.geometry(sources).subrange(0, k)).len(),
            ),
            vertex_bytes(p.vertex_start as int) <= usize::MAX,
            forall|a: Vec3, b: Vec3, m: Mat4| #[trigger] call_requires(*transform, (a, b, m)),
        ensures
            is_cluster(*self, *transform, sources, k, c),
    {
        let batch: &InstancedProp = &self.instanced_props[inst];
        let (lo, hi): (Vec3, Vec3) = local_bounds(&mesh.vertices);
        let (cluster_bb_min, cluster_bb_max): (Vec3, Vec3) = cluster_bounds(
            transform,
            lo,
            hi,
            &batch.instances,
        );
        let mut instances: Vec<Mat4> = Vec::new();
        let mut i: usize = 0;
        while i < batch.instances.len()
            invariant
                i <= batch.instances@.len(),
                instances@ == batch.instances@.subrange(0, i as int),
            decreases batch.instances@.len() - i,
        {
            instances.push(batch.instances[i]);
            i = i + 1;
            assert(instances@ =~= batch.instances@.subrange(0, i as int));
        }
        assert(instances@ =~= batch.instances@);
        InstancedCluster {
            vertex_offset: p.vertex_start * VERTEX_BYTES,
            vertex_count: p.vertex_count,
            index_offset: p.index_offset,
            index_count: p.index_count,
            texture_slot: look.texture_slot,
            normal_map_slot: look.normal_map_slot,
            material: look.uniforms,
            cluster_bb_min,
            cluster_bb_max,
            local_bb_min: lo,
            local_bb_max: hi,
            cull_distance: batch.cull_distance,
            instances,
            lod_alternates: p.lods,
        }
    }

    /// Enter a source into the table from mesh assets to draw objects.
    fn enter(
        table: &mut HashMap<u32, Vec<usize>>,
        src: Source,
        rank: usize,
        Ghost(sources): Ghost<Seq<Source>>,
        Ghost(k): Ghost<nat>,
    )
        requires
            k < sources.len(),
            src == sources[k as int],
            rank == object_rank(sources, k),
            is_mesh_table(sources, k, old(table)@),
        ensures
            is_mesh_table(sources, k + 1, final(table)@),
    {
        let ghost was = table@;
        match src {
            Source::Placed { mesh, .. } => {
                append_under(table, mesh, rank);
                proof {
                    lemma_table_grows(sources, k, was, table@, mesh);
                }
            },
            Source::Loose { mesh } => {
                append_under(table, mesh, rank);
                proof {
                    lemma_table_grows(sources, k, was, table@, mesh);
                }
            },
            _ => {
                proof {
                    lemma_table_stays(sources, k, was);
                }
            },
        }
    }

    /// Lay out the geometry of the sources and fill in their draws.
    fn lay_out<F: Fn(Vec3, Vec3, Mat4) -> (Vec3, Vec3)>(
        &self,
        transform: F,
        sources: Vec<Source>,
        prop_draw_indices: Vec<Vec<usize>>,
    ) -> (out: DrawListData)
        requires
            self.is_prop_table(self.props@.len(), prop_draw_indices@),
            self.world_mats@.len() >= self.props@.len(),
            packed_vertices(self.geometry(sources@)).len() + 0xffff <= u32::MAX,
            vertex_bytes(packed_vertices(self.geometry(sources@)).len() as int) <= usize::MAX,
            forall|i: int| 0 <= i < sources@.len() ==> self.valid(#[trigger] sources@[i]),
            forall|a: Vec3, b: Vec3, m: Mat4| #[trigger] call_requires(transform, (a, b, m)),
        ensures
            self.is_draw_list(transform, sources@, out),
    {
        let ghost meshes = self.geometry(sources@);
        let ghost total = packed_vertices(meshes).len() as int;
        let ghost is_obj = |i: int, o: DrawObject| is_object(*self, transform, sources@, i, o);
        let ghost is_clu = |i: int, c: InstancedCluster|
            is_cluster(*self, transform, sources@, i, c);
        let mut pack: Pack = Pack::new();
        let mut objects: Vec<DrawObject> = Vec::new();
        let mut clusters: Vec<InstancedCluster> = Vec::new();
        let mut table: HashMap<u32, Vec<usize>> = HashMap::new();
        let mut k: usize = 0;
        proof {
            broadcast use vstd::std_specs::hash::group_hash_axioms;

            assert(meshes.subrange(0, 0) =~= Seq::empty());
            assert(is_mesh_table(sources@, 0, table@));
        }
        while k < sources.len()
            invariant
                k <= sources@.len(),
                meshes == self.geometry(sources@),
                total == packed_vertices(meshes).len(),
                total + 0xffff <= u32::MAX,
                vertex_bytes(total) <= usize::MAX,
                is_obj == (|i: int, o: DrawObject| is_object(*self, transform, sources@, i, o)),
                is_clu == (|i: int, c: InstancedCluster|
                    is_cluster(*self, transform, sources@, i, c)),
                self.world_mats@.len() >= self.props@.len(),
                forall|i: int| 0 <= i < sources@.len() ==> self.valid(#[trigger] sources@[i]),
                forall|a: Vec3, b: Vec3, m: Mat4| #[trigger] call_requires(transform, (a, b, m)),
                pack.vertices@ == packed_vertices(meshes.subrange(0, k as int)),
                pack.indices@ == packed_indices(meshes.subrange(0, k as int)),
                draws_by(sources@, k as nat, objects@, clusters@, is_obj, is_clu),
                is_mesh_table(sources@, k as nat, table@),
            decreases sources@.len() - k,
        {
            let src: Source = sources[k];
            let mesh: &LoadedMesh = self.find_geometry(src);
            proof {
                crate::geometry::lemma_packed_vertices_grow(meshes, k as int);
            }
            let p: Placement = pack.append(mesh);
            proof {
                let next = meshes.subrange(0, k + 1);
                assert(next.drop_last() =~= meshes.subrange(0, k as int));
                assert(next.last() == *mesh);
            }
            let ghost objects_was = objects@;
            let ghost clusters_was = clusters@;
            Self::enter(&mut table, src, objects.len(), Ghost(sources@), Ghost(k as nat));
            match src {
                Source::Batch { inst, look, .. } => {
                    let c: InstancedCluster = self.cluster_of(
                        &transform,
                        inst,
                        look,
                        mesh,
                        p,
                        Ghost(sources@),
                        Ghost(k as int),
                    );
                    assert(is_clu(k as int, c));
                    clusters.push(c);
                    assert(clusters@.drop_last() =~= clusters_was);
                },
                _ => {
                    let o: DrawObject = self.object_of(
                        &transform,
                        src,
                        mesh,
                        p,
                        Ghost(sources@),
                        Ghost(k as int),
                    );
                    assert(is_obj(k as int, o));
                    objects.push(o);
                    assert(objects@.drop_last() =~= objects_was);
                },
            }
            proof {
                lemma_draws_grow(
                    sources@,
                    k as nat,
                    objects_was,
                    clusters_was,
                    objects@,
                    clusters@,
                    is_obj,
                    is_clu,
                );
            }
            k = k + 1;
        }
        assert(meshes.subrange(0, k as int) =~= meshes);
        DrawListData {
            vertices: pack.vertices,
            indices: pack.indices,
            draw_objects: objects,
            instanced_clusters: clusters,
            prop_draw_indices,
            mesh_id_to_draws: table,
        }
    }
}

/// Whether `r` is what a scene comes to, with its meshes walked in a given order.
pub open spec fn is_outcome<F: Fn(Vec3, Vec3, Mat4) -> (Vec3, Vec3)>(
    inputs: SceneInputs,
    transform: F,
    order: Seq<AssetId>,
    r: Result<DrawListData, DrawListError>,
) -> bool {
    match (r, inputs.sources(order)) {
        (Ok(out), Ok(sources)) => inputs.is_draw_list(transform, sources, out),
        (Err(e), Err(f)) => e == f,
        _ => false,
    }
}

/// Every asset that a scene refers to is there: meshes, models, materials, and the
/// textures that stand in for want of a material.
pub open spec fn all_there(inputs: SceneInputs) -> bool {
    &&& forall|i: int|
        0 <= i < inputs.props@.len() ==> inputs.has_prop(#[trigger] inputs.props@[i])
    &&& forall|i: int|
        0 <= i < inputs.instanced_props@.len() ==> inputs.has_batch(#[trigger] inputs.instanced_props@[i])
    &&& forall|i: int|
        0 <= i < inputs.room_geometry@.len() ==> inputs.has_look(
            None,
            (#[trigger] inputs.room_geometry@[i]).texture,
        )
}

/// Assemble the shared buffers and the draw records of a scene. `transform` gives
/// the box of a local box under a matrix. Fails on the first reference to an asset
/// that is not there. The meshes that nothing refers to are drawn in no particular
/// order.
pub fn build_draw_list<F: Fn(Vec3, Vec3, Mat4) -> (Vec3, Vec3)>(
    inputs: &SceneInputs,
    transform: F,
) -> (r: Result<DrawListData, DrawListError>)
    requires
        inputs.world_mats@.len() >= inputs.props@.len(),
        inputs.fits(),
        forall|a: Vec3, b: Vec3, m: Mat4| #[trigger] call_requires(transform, (a, b, m)),
    ensures
        exists|order: Seq<AssetId>| #[trigger]
            inputs.is_order(order) && is_outcome(*inputs, transform, order, r),
{
    let order: Vec<AssetId> = keys_of(&inputs.mesh_geometry);
    assert(inputs.is_order(order@));
    let mut sources: Vec<Source> = Vec::new();
    let props_n: usize = inputs.props.len();
    let inst_n: usize = inputs.instanced_props.len();
    let rooms_n: usize = inputs.room_geometry.len();
    let prop_draw_indices: Vec<Vec<usize>> = match inputs.resolve_props(&mut sources) {
        Ok(t) => t,
        Err(e) => {
            assert(is_outcome(*inputs, transform, order@, Err(e)));
            return Err(e);
        },
    };
    match inputs.resolve_batches(&mut sources) {
        Ok(_) => {},
        Err(e) => {
            assert(is_outcome(*inputs, transform, order@, Err(e)));
            return Err(e);
        },
    }
    inputs.resolve_loose(&order, &mut sources);
    match inputs.resolve_rooms(&mut sources) {
        Ok(_) => {},
        Err(e) => {
            assert(is_outcome(*inputs, transform, order@, Err(e)));
            return Err(e);
        },
    }
    proof {
        inputs.lemma_sources_valid(order@);
        assert(inputs.fits_in(order@));
    }
    let out: DrawListData = inputs.lay_out(transform, sources, prop_draw_indices);
    assert(is_outcome(*inputs, transform, order@, Ok(out)));
    Ok(out)
}

/// What can move, and what is always resident, is never culled by its box at the start.
pub proof fn law_moving_draws_opt_out<F: Fn(Vec3, Vec3, Mat4) -> (Vec3, Vec3)>(
    inputs: SceneInputs,
    transform: F,
    sources: Seq<Source>,
    k: int,
    obj: DrawObject,
)
    requires
        is_object(inputs, transform, sources, k, obj),
        sources[k] matches Source::Placed { prop, mesh, .. } ==> dynamic(inputs.props@[prop as int])
            || inputs.always_resident_meshes@.contains(mesh),
    ensures
        !finite_box(obj.bb_min, obj.bb_max),
{
}

/// A mesh that nothing refers to is drawn on its own, and one that something refers to
/// is not, in whichever order the meshes are walked.
pub proof fn law_loose_meshes_are_drawn(
    inputs: SceneInputs,
    order: Seq<AssetId>,
    mesh: AssetId,
)
    requires
        inputs.is_order(order),
    ensures
        inputs.loose(order, order.len()).contains(Source::Loose { mesh }) <==> {
            &&& inputs.mesh_geometry@.dom().contains(mesh)
            &&& !inputs.referenced(mesh)
        },
{
    lemma_loose_contains(inputs, order, order.len(), mesh);
    assert(order.subrange(0, order.len() as int) =~= order);
    assert(order.contains(mesh) <==> order.to_set().contains(mesh));
}

proof fn lemma_loose_contains(inputs: SceneInputs, order: Seq<AssetId>, k: nat, mesh: AssetId)
    requires
        k <= order.len(),
    ensures
        inputs.loose(order, k).contains(Source::Loose { mesh }) <==> {
            &&& order.subrange(0, k as int).contains(mesh)
            &&& !inputs.referenced(mesh)
        },
    decreases k,
{
    let here = order.subrange(0, k as int);
    if k == 0 {
        assert(!inputs.loose(order, k).contains(Source::Loose { mesh }));
    } else {
        lemma_loose_contains(inputs, order, (k - 1) as nat, mesh);
        let last = order[k - 1];
        let before = order.subrange(0, k - 1);
        let drawn_before = inputs.loose(order, (k - 1) as nat);
        assert(here =~= before.push(last));
        assert(here.contains(mesh) <==> before.contains(mesh) || mesh == last) by {
            if before.contains(mesh) {
                let i = choose|i: int| 0 <= i < before.len() && before[i] == mesh;
                assert(here[i] == mesh);
            }
            if mesh == last {
                assert(here[k - 1] == mesh);
            }
        }
        if !inputs.referenced(last) {
            let now = drawn_before.push(Source::Loose { mesh: last });
            assert(inputs.loose(order, k) == now);
            assert(now.contains(Source::Loose { mesh }) <==> drawn_before.contains(
                Source::Loose { mesh },
            ) || mesh == last) by {
                if drawn_before.contains(Source::Loose { mesh }) {
                    let i = choose|i: int|
                        0 <= i < drawn_before.len() && drawn_before[i] == (Source::Loose { mesh });
                    assert(now[i] == (Source::Loose { mesh }));
                }
                if mesh == last {
                    assert(now[now.len() - 1] == (Source::Loose { mesh }));
                }
            }
        }
    }
}

/// The draws of the props stand first, one prop after the other: those of a prop are
/// the ones from the draws before it up to the draws before the next.
pub proof fn law_prop_draws_are_its_own(inputs: SceneInputs, i: nat, n: nat, p: int)
    requires
        i < n <= inputs.props@.len(),
        inputs.placed(n) is Ok,
        inputs.draws_before(i) <= p < inputs.draws_before(i + 1),
    ensures
        inputs.draws_before(i + 1) <= inputs.placed(n)->Ok_0.len(),
        inputs.placed(n)->Ok_0[p] matches Source::Placed { prop, .. } && prop == i as usize,
        object_rank(inputs.placed(n)->Ok_0, p as nat) == p,
    decreases n,
{
    let all = inputs.placed(n)->Ok_0;
    let before = inputs.placed((n - 1) as nat)->Ok_0;
    let own = inputs.prop_sources(n - 1)->Ok_0;
    assert(all == before + own);
    lemma_prop_sources_are_placed(inputs, n - 1);
    if i + 1 == n {
        assert(all[p] == own[p - before.len()]);
    } else {
        law_prop_draws_are_its_own(inputs, i, (n - 1) as nat, p);
        assert(all[p] == before[p]);
    }
    lemma_placed_ranks(inputs, n, p as nat);
}

proof fn lemma_placed_ranks(inputs: SceneInputs, n: nat, p: nat)
    requires
        n <= inputs.props@.len(),
        inputs.placed(n) is Ok,
        p <= inputs.placed(n)->Ok_0.len(),
    ensures
        object_rank(inputs.placed(n)->Ok_0, p) == p,
    decreases p,
{
    if p > 0 {
        lemma_placed_ranks(inputs, n, (p - 1) as nat);
        lemma_all_placed(inputs, n, p - 1);
    }
}

proof fn lemma_all_placed(inputs: SceneInputs, n: nat, p: int)
    requires
        n <= inputs.props@.len(),
        inputs.placed(n) is Ok,
        0 <= p < inputs.placed(n)->Ok_0.len(),
    ensures
        inputs.placed(n)->Ok_0[p] is Placed,
    decreases n,
{
    if n > 0 {
        let before = inputs.placed((n - 1) as nat)->Ok_0;
        let own = inputs.prop_sources(n - 1)->Ok_0;
        lemma_prop_sources_are_placed(inputs, n - 1);
        if p < before.len() {
            lemma_all_placed(inputs, (n - 1) as nat, p);
        } else {
            assert(inputs.placed(n)->Ok_0[p] == own[p - before.len()]);
        }
    }
}

proof fn lemma_prop_sources_are_placed(inputs: SceneInputs, i: int)
    requires
        0 <= i < inputs.props@.len(),
        inputs.prop_sources(i) is Ok,
    ensures
        forall|j: int|
            0 <= j < inputs.prop_sources(i)->Ok_0.len() ==> (
            #[trigger] inputs.prop_sources(i)->Ok_0[j] matches Source::Placed { prop, .. } && prop
                == i as usize),
{
    match inputs.props@[i].model {
        Some(model) => {
            let subs = inputs.model_map@[model]@;
            lemma_sub_sources_are_placed(inputs, i, model, subs, subs.len());
        },
        None => {},
    }
}

proof fn lemma_sub_sources_are_placed(
    inputs: SceneInputs,
    i: int,
    model: AssetId,
    subs: Seq<SubMeshRef>,
    k: nat,
)
    requires
        inputs.sub_sources(i, model, subs, k) is Ok,
    ensures
        forall|j: int|
            0 <= j < inputs.sub_sources(i, model, subs, k)->Ok_0.len() ==> (
            #[trigger] inputs.sub_sources(i, model, subs, k)->Ok_0[j] matches Source::Placed {
                prop,
                ..
            } && prop == i as usize),
    decreases k,
{
    if k > 0 {
        lemma_sub_sources_are_placed(inputs, i, model, subs, (k - 1) as nat);
        let before = inputs.sub_sources(i, model, subs, (k - 1) as nat)->Ok_0;
        assert forall|j: int|
            0 <= j < inputs.sub_sources(i, model, subs, k)->Ok_0.len() implies (
        #[trigger] inputs.sub_sources(i, model, subs, k)->Ok_0[j] matches Source::Placed { prop, .. }
            && prop == i as usize) by {
            if j < before.len() {
                assert(inputs.sub_sources(i, model, subs, k)->Ok_0[j] == before[j]);
            }
        }
    }
}

/// A draw list is built exactly when every asset that the scene refers to is there.
pub proof fn law_built_iff_all_there(inputs: SceneInputs, order: Seq<AssetId>)
    ensures
        inputs.sources(order) is Ok <==> all_there(inputs),
{
    lemma_placed_ok(inputs, inputs.props@.len());
    lemma_batches_ok(inputs, inputs.instanced_props@.len());
    lemma_rooms_ok(inputs, inputs.room_geometry@.len());
    if inputs.sources(order) is Ok {
        assert forall|i: int| 0 <= i < inputs.props@.len() implies inputs.has_prop(
            #[trigger] inputs.props@[i],
        ) by {
            assert(inputs.prop_sources(i) is Ok);
            lemma_prop_ok(inputs, i);
        }
    }
    if all_there(inputs) {
        assert forall|i: int| 0 <= i < inputs.props@.len() implies #[trigger] inputs.prop_sources(
            i,
        ) is Ok by {
            assert(inputs.props@[i] == inputs.props@[i]);
            lemma_prop_ok(inputs, i);
        }
    }
}

proof fn lemma_sub_ok(inputs: SceneInputs, prop: int, model: AssetId, subs: Seq<SubMeshRef>, k: nat)
    requires
        k <= subs.len(),
    ensures
        inputs.sub_sources(prop, model, subs, k) is Ok <==> forall|j: int|
            0 <= j < k ==> inputs.has_sub(#[trigger] subs[j]),
    decreases k,
{
    if k > 0 {
        lemma_sub_ok(inputs, prop, model, subs, (k - 1) as nat);
        let sub = subs[k - 1];
    }
}

proof fn lemma_prop_ok(inputs: SceneInputs, i: int)
    requires
        0 <= i < inputs.props@.len(),
    ensures
        inputs.prop_sources(i) is Ok <==> inputs.has_prop(inputs.props@[i]),
{
    match inputs.props@[i].model {
        Some(model) => {
            let subs = inputs.model_map@[model]@;
            lemma_sub_ok(inputs, i, model, subs, subs.len());
        },
        None => {},
    }
}

proof fn lemma_placed_ok(inputs: SceneInputs, k: nat)
    ensures
        inputs.placed(k) is Ok <==> forall|i: int|
            0 <= i < k ==> #[trigger] inputs.prop_sources(i) is Ok,
    decreases k,
{
    if k > 0 {
        lemma_placed_ok(inputs, (k - 1) as nat);
        assert(inputs.placed(k) is Ok ==> inputs.prop_sources(k - 1) is Ok);
    }
}

proof fn lemma_batches_ok(inputs: SceneInputs, k: nat)
    ensures
        inputs.batches(k) is Ok <==> forall|i: int|
            0 <= i < k ==> inputs.has_batch(#[trigger] inputs.instanced_props@[i]),
    decreases k,
{
    if k > 0 {
        lemma_batches_ok(inputs, (k - 1) as nat);
        let p = inputs.instanced_props@[k - 1];
    }
}

proof fn lemma_rooms_ok(inputs: SceneInputs, k: nat)
    ensures
        inputs.rooms(k) is Ok <==> forall|i: int|
            0 <= i < k ==> inputs.has_look(None, (#[trigger] inputs.room_geometry@[i]).texture),
    decreases k,
{
    if k > 0 {
        lemma_rooms_ok(inputs, (k - 1) as nat);
        let r = inputs.room_geometry@[k - 1];
    }
}

proof fn lemma_placed_prefix(inputs: SceneInputs, m: nat, n: nat)
    requires
        m <= n,
        inputs.placed(n) is Ok,
    ensures
        inputs.placed(m) is Ok,
        inputs.placed(m)->Ok_0.len() <= inputs.placed(n)->Ok_0.len(),
        forall|p: int|
            0 <= p < inputs.placed(m)->Ok_0.len() ==> #[trigger] inputs.placed(n)->Ok_0[p]
                == inputs.placed(m)->Ok_0[p],
    decreases n,
{
    if m < n {
        lemma_placed_prefix(inputs, m, (n - 1) as nat);
    }
}

proof fn lemma_sub_at(
    inputs: SceneInputs,
    i: int,
    model: AssetId,
    subs: Seq<SubMeshRef>,
    k: nat,
    j: int,
)
    requires
        k <= subs.len(),
        inputs.sub_sources(i, model, subs, k) is Ok,
        0 <= j < k,
    ensures
        inputs.sub_sources(i, model, subs, k)->Ok_0.len() == k,
        inputs.sub_source(i, model, subs[j]) == Ok::<Source, DrawListError>(
            inputs.sub_sources(i, model, subs, k)->Ok_0[j],
        ),
    decreases k,
{
    let before = inputs.sub_sources(i, model, subs, (k - 1) as nat)->Ok_0;
    if k > 1 {
        if j < k - 1 {
            lemma_sub_at(inputs, i, model, subs, (k - 1) as nat, j);
            assert(inputs.sub_sources(i, model, subs, k)->Ok_0[j] == before[j]);
        } else {
            lemma_sub_at(inputs, i, model, subs, (k - 1) as nat, 0);
        }
    } else {
        assert(inputs.sub_sources(i, model, subs, 0) == Ok::<Seq<Source>, DrawListError>(
            Seq::empty(),
        ));
    }
}

proof fn lemma_ranks_of_placed(inputs: SceneInputs, order: Seq<AssetId>, p: nat)
    requires
        inputs.sources(order) is Ok,
        p <= inputs.placed(inputs.props@.len())->Ok_0.len(),
    ensures
        object_rank(inputs.sources(order)->Ok_0, p) == p,
    decreases p,
{
    let all = inputs.sources(order)->Ok_0;
    let placed = inputs.placed(inputs.props@.len())->Ok_0;
    if p > 0 {
        lemma_ranks_of_placed(inputs, order, (p - 1) as nat);
        lemma_all_placed(inputs, inputs.props@.len(), p - 1);
        assert(all[p - 1] == placed[p - 1]);
    }
}

/// The draw of the `j`th draw of prop `i` is the draw object that its table names.
proof fn lemma_prop_draw<F: Fn(Vec3, Vec3, Mat4) -> (Vec3, Vec3)>(
    inputs: SceneInputs,
    transform: F,
    order: Seq<AssetId>,
    out: DrawListData,
    i: int,
    j: int,
)
    requires
        is_outcome(inputs, transform, order, Ok(out)),
        0 <= i < inputs.props@.len(),
        inputs.prop_sources(i) is Ok,
        0 <= j < inputs.prop_sources(i)->Ok_0.len(),
    ensures
        ({
            let sources = inputs.sources(order)->Ok_0;
            let own = inputs.prop_sources(i)->Ok_0;
            let at = inputs.draws_before(i as nat) + j;
            &&& out.prop_draw_indices@.len() == inputs.props@.len()
            &&& out.prop_draw_indices@[i]@.len() == own.len()
            &&& out.prop_draw_indices@[i]@[j] == at
            &&& at < out.draw_objects@.len()
            &&& at < sources.len()
            &&& sources[at] == own[j]
            &&& object_rank(sources, at as nat) == at
            &&& is_object(inputs, transform, sources, at, out.draw_objects@[at])
        }),
{
    let sources = inputs.sources(order)->Ok_0;
    let n = inputs.props@.len();
    let placed = inputs.placed(n)->Ok_0;
    let own = inputs.prop_sources(i)->Ok_0;
    let at = inputs.draws_before(i as nat) + j;
    lemma_placed_prefix(inputs, i as nat, n);
    lemma_placed_prefix(inputs, (i + 1) as nat, n);
    let upto = inputs.placed((i + 1) as nat)->Ok_0;
    assert(upto == inputs.placed(i as nat)->Ok_0 + own);
    assert(upto[at] == own[j]);
    assert(placed[at] == upto[at]);
    assert(sources[at] == placed[at]);
    lemma_ranks_of_placed(inputs, order, at as nat);
    lemma_prop_sources_are_placed(inputs, i);
    assert(own[j] is Placed);
    let is_obj = |k: int, o: DrawObject| is_object(inputs, transform, sources, k, o);
    let is_clu = |k: int, c: InstancedCluster| is_cluster(inputs, transform, sources, k, c);
    assert(drawn(sources, at, out.draw_objects@, out.instanced_clusters@, is_obj, is_clu));
    lemma_rank_below(sources, at as nat, sources.len());
    assert(out.draw_objects.len() == out.draw_objects@.len());
    assert(out.prop_draw_indices@[i]@ == Seq::new(
        (inputs.draws_before((i + 1) as nat) - inputs.draws_before(i as nat)) as nat,
        |j: int| (inputs.draws_before(i as nat) + j) as usize,
    ));
}

/// A prop without a model is drawn once, by the draw object that its table names: where
/// its world matrix puts it, to its own distance, with the slots and the material of its
/// material or, without one, with the slot of its texture and the default material; with
/// neither, the slot is the first. What can move, and what is always resident, has no box
/// to be culled by; anything else has the box that its mesh's box comes to under its
/// matrix. The table of its mesh names the draw object, too.
pub proof fn law_prop_is_drawn_as_it_asks<F: Fn(Vec3, Vec3, Mat4) -> (Vec3, Vec3)>(
    inputs: SceneInputs,
    transform: F,
    order: Seq<AssetId>,
    out: DrawListData,
    i: int,
)
    requires
        inputs.is_order(order),
        is_outcome(inputs, transform, order, Ok(out)),
        0 <= i < inputs.props@.len(),
        inputs.props@[i].model is None,
    ensures
        ({
            let prop = inputs.props@[i];
            let table = out.prop_draw_indices@[i]@;
            let obj = out.draw_objects@[table[0] as int];
            let mesh = inputs.mesh_geometry@[prop.mesh->0];
            &&& prop.mesh is Some && inputs.mesh_geometry@.dom().contains(prop.mesh->0)
            &&& table.len() == 1 && table[0] < out.draw_objects@.len()
            &&& obj.model == inputs.world_mats@[i]
            &&& obj.cull_distance == prop.cull_distance
            &&& obj.visible && obj.resident && obj.base_vertex == 0
            &&& prop.material matches Some(m) ==> {
                &&& obj.texture_slot == inputs.material_map@[m].texture_slot
                &&& obj.normal_map_slot == inputs.material_map@[m].normal_map_slot
                &&& obj.material == inputs.material_map@[m].uniforms
            }
            &&& prop.material is None ==> {
                &&& obj.texture_slot == match prop.texture {
                    Some(t) => inputs.texture_name_to_slot@[t],
                    None => 0,
                }
                &&& obj.normal_map_slot == 0
                &&& obj.material == inputs.default_material
            }
            &&& if prop.pickup || prop.interactable || prop.parent is Some || prop.collider is Some
                || inputs.always_resident_meshes@.contains(prop.mesh->0) {
                !finite_box(obj.bb_min, obj.bb_max)
            } else {
                exists|l: Vec3, h: Vec3| #[trigger]
                    bounds(mesh.vertices@, l, h) && call_ensures(
                        transform,
                        (l, h, inputs.world_mats@[i]),
                        (obj.bb_min, obj.bb_max),
                    )
            }
            &&& obj.vertex_count == mesh.vertices@.len()
            &&& obj.index_count == mesh.indices@.len()
            &&& obj.lod_alternates@.len() == mesh.lod_alternates@.len()
            &&& out.mesh_id_to_draws@.dom().contains(prop.mesh->0)
            &&& out.mesh_id_to_draws@[prop.mesh->0]@.contains(table[0])
        }),
{
    let sources = inputs.sources(order)->Ok_0;
    let prop = inputs.props@[i];
    lemma_placed_ok(inputs, inputs.props@.len());
    assert(inputs.prop_sources(i) is Ok);
    lemma_prop_draw(inputs, transform, order, out, i, 0);
    let at = inputs.draws_before(i as nat) as int;
    assert(inputs.props.len() == inputs.props@.len());
    assert(sources[at] is Placed);
    assert(inputs.geometry(sources)[at] == inputs.mesh_geometry@[prop.mesh->0]);
    lemma_draw_is_listed(sources, sources.len(), at, prop.mesh->0);
    let obj = out.draw_objects@[at];
    assert(out.prop_draw_indices@[i]@[0] == at);
    assert(prop.material matches Some(m) ==> obj.texture_slot
        == inputs.material_map@[m].texture_slot);
    assert(obj.model == inputs.world_mats@[i]);
    assert(out.mesh_id_to_draws@.dom().contains(prop.mesh->0));
}

proof fn lemma_draw_is_listed(sources: Seq<Source>, n: nat, k: int, id: AssetId)
    requires
        0 <= k < n <= sources.len(),
        draws_mesh(sources[k], id),
    ensures
        draws_of(sources, n, id).contains(object_rank(sources, k as nat) as usize),
    decreases n,
{
    let now = draws_of(sources, n, id);
    let want = object_rank(sources, k as nat) as usize;
    if k == n - 1 {
        assert(now[now.len() - 1] == want);
    } else {
        lemma_draw_is_listed(sources, (n - 1) as nat, k, id);
        let before = draws_of(sources, (n - 1) as nat, id);
        let j = choose|j: int| 0 <= j < before.len() && before[j] == want;
        assert(now[j] == want);
    }
}

/// A prop with a model is drawn once for each sub-mesh of the model, in order, each with
/// the sub-mesh's material or, without one, with the first slot and the default material.
pub proof fn law_model_is_drawn_by_its_sub_meshes<F: Fn(Vec3, Vec3, Mat4) -> (Vec3, Vec3)>(
    inputs: SceneInputs,
    transform: F,
    order: Seq<AssetId>,
    out: DrawListData,
    i: int,
    j: int,
)
    requires
        inputs.is_order(order),
        is_outcome(inputs, transform, order, Ok(out)),
        0 <= i < inputs.props@.len(),
        inputs.props@[i].model is Some,
        0 <= j < inputs.model_map@[inputs.props@[i].model->0]@.len(),
    ensures
        ({
            let prop = inputs.props@[i];
            let subs = inputs.model_map@[prop.model->0]@;
            let sub = subs[j];
            let table = out.prop_draw_indices@[i]@;
            let obj = out.draw_objects@[table[j] as int];
            let mesh = inputs.mesh_geometry@[sub.mesh->0];
            &&& table.len() == subs.len() && table[j] < out.draw_objects@.len()
            &&& sub.mesh is Some && inputs.mesh_geometry@.dom().contains(sub.mesh->0)
            &&& obj.model == inputs.world_mats@[i]
            &&& obj.cull_distance == prop.cull_distance
            &&& sub.material matches Some(m) ==> {
                &&& obj.texture_slot == inputs.material_map@[m].texture_slot
                &&& obj.normal_map_slot == inputs.material_map@[m].normal_map_slot
                &&& obj.material == inputs.material_map@[m].uniforms
            }
            &&& sub.material is None ==> {
                &&& obj.texture_slot == 0
                &&& obj.normal_map_slot == 0
                &&& obj.material == inputs.default_material
            }
            &&& if prop.pickup || prop.interactable || prop.parent is Some || prop.collider is Some
                || inputs.always_resident_meshes@.contains(sub.mesh->0) {
                !finite_box(obj.bb_min, obj.bb_max)
            } else {
                exists|l: Vec3, h: Vec3| #[trigger]
                    bounds(mesh.vertices@, l, h) && call_ensures(
                        transform,
                        (l, h, inputs.world_mats@[i]),
                        (obj.bb_min, obj.bb_max),
                    )
            }
            &&& obj.vertex_count == mesh.vertices@.len()
            &&& obj.index_count == mesh.indices@.len()
            &&& out.mesh_id_to_draws@.dom().contains(sub.mesh->0)
            &&& out.mesh_id_to_draws@[sub.mesh->0]@.contains(table[j])
        }),
{
    let sources = inputs.sources(order)->Ok_0;
    let prop = inputs.props@[i];
    let model = prop.model->0;
    let subs = inputs.model_map@[model]@;
    lemma_placed_ok(inputs, inputs.props@.len());
    assert(inputs.prop_sources(i) is Ok);
    lemma_sub_at(inputs, i, model, subs, subs.len(), j);
    lemma_prop_draw(inputs, transform, order, out, i, j);
    let at = inputs.draws_before(i as nat) + j;
    assert(inputs.props.len() == inputs.props@.len());
    assert(inputs.geometry(sources)[at] == inputs.mesh_geometry@[subs[j].mesh->0]);
    lemma_draw_is_listed(sources, sources.len(), at, subs[j].mesh->0);
    let obj = out.draw_objects@[at];
    assert(out.prop_draw_indices@[i]@[j] == at);
    assert(obj.model == inputs.world_mats@[i]);
    assert(subs[j].material matches Some(m) ==> obj.texture_slot
        == inputs.material_map@[m].texture_slot);
    assert(out.mesh_id_to_draws@.dom().contains(subs[j].mesh->0));
}

/// The geometry of a draw object or cluster is its mesh's: its vertices stand in the shared
/// buffer from its byte offset on, and its indices from its index offset on, shifted to
/// those vertices.
pub proof fn law_draw_reads_its_mesh(
    inputs: SceneInputs,
    sources: Seq<Source>,
    k: int,
    vertices: Seq<Vertex>,
    indices: Seq<u32>,
    vertex_offset: usize,
    vertex_count: usize,
    index_offset: usize,
    index_count: usize,
    v: int,
    i: int,
)
    requires
        0 <= k < sources.len(),
        vertices == packed_vertices(inputs.geometry(sources)),
        indices == packed_indices(inputs.geometry(sources)),
        vertices.len() + 0xffff <= u32::MAX,
        slices_at(
            inputs.geometry(sources),
            k,
            vertex_offset,
            vertex_count,
            index_offset,
            index_count,
        ),
    ensures
        ({
            let mesh = match sources[k] {
                Source::Placed { mesh, .. } => inputs.mesh_geometry@[mesh],
                Source::Batch { mesh, .. } => inputs.mesh_geometry@[mesh],
                Source::Loose { mesh } => inputs.mesh_geometry@[mesh],
                Source::Room { room, .. } => inputs.room_geometry@[room as int].mesh,
            };
            &&& vertex_offset % 56 == 0
            &&& vertex_count == mesh.vertices@.len()
            &&& index_count == mesh.indices@.len()
            &&& 0 <= v < vertex_count ==> vertices[vertex_offset / 56 + v] == mesh.vertices@[v]
            &&& 0 <= i < index_count && mesh.indices@[i] < vertex_count ==> indices[index_offset
                + i] == vertex_offset / 56 + mesh.indices@[i]
        }),
{
    let meshes = inputs.geometry(sources);
    let start = packed_vertices(meshes.subrange(0, k)).len() as int;
    assert(vertex_offset == start * 56);
    assert((start * 56) % 56 == 0 && (start * 56) / 56 == start) by (nonlinear_arith)
        requires
            start >= 0,
    ;
    if 0 <= v < vertex_count {
        crate::geometry::law_packed_vertices_are_the_meshes(meshes, k, v);
    }
    if 0 <= i < index_count && meshes[k].indices@[i] < vertex_count {
        crate::geometry::law_packed_mesh_draws_its_vertices(meshes, k, i);
    }
}

proof fn lemma_batch_at(inputs: SceneInputs, i: nat, n: nat)
    requires
        i < n <= inputs.instanced_props@.len(),
        inputs.batches(n) is Ok,
        inputs.instanced_props@[i as int].mesh is Some,
        inputs.instanced_props@[i as int].instances@.len() > 0,
    ensures
        ({
            let inst = inputs.instanced_props@[i as int];
            let q = inputs.batches(i)->Ok_0.len() as int;
            &&& inputs.batches(i) is Ok
            &&& q < inputs.batches(n)->Ok_0.len()
            &&& inputs.mesh_geometry@.dom().contains(inst.mesh->0)
            &&& inputs.look(inst.material, inst.texture) is Ok
            &&& inputs.batches(n)->Ok_0[q] == (Source::Batch {
                inst: i as usize,
                mesh: inst.mesh->0,
                look: inputs.look(inst.material, inst.texture)->Ok_0,
            })
        }),
    decreases n,
{
    if i + 1 < n {
        lemma_batch_at(inputs, i, (n - 1) as nat);
        let q = inputs.batches(i)->Ok_0.len() as int;
        assert(inputs.batches(n)->Ok_0[q] == inputs.batches((n - 1) as nat)->Ok_0[q]);
    }
}

proof fn lemma_all_batches(inputs: SceneInputs, n: nat, q: int)
    requires
        inputs.batches(n) is Ok,
        0 <= q < inputs.batches(n)->Ok_0.len(),
    ensures
        inputs.batches(n)->Ok_0[q] is Batch,
    decreases n,
{
    if n > 0 {
        let before = inputs.batches((n - 1) as nat)->Ok_0;
        if q < before.len() {
            lemma_all_batches(inputs, (n - 1) as nat, q);
            assert(inputs.batches(n)->Ok_0[q] == before[q]);
        }
    }
}

proof fn lemma_ranks_of_batches(inputs: SceneInputs, order: Seq<AssetId>, q: nat)
    requires
        inputs.sources(order) is Ok,
        q <= inputs.batches(inputs.instanced_props@.len())->Ok_0.len(),
    ensures
        ({
            let p = inputs.placed(inputs.props@.len())->Ok_0.len();
            object_rank(inputs.sources(order)->Ok_0, p + q) == p
        }),
    decreases q,
{
    let all = inputs.sources(order)->Ok_0;
    let p = inputs.placed(inputs.props@.len())->Ok_0.len();
    let b = inputs.batches(inputs.instanced_props@.len())->Ok_0;
    if q > 0 {
        lemma_ranks_of_batches(inputs, order, (q - 1) as nat);
        lemma_all_batches(inputs, inputs.instanced_props@.len(), q - 1);
        assert(all[p + q - 1] == b[q - 1]);
    } else {
        lemma_ranks_of_placed(inputs, order, p);
    }
}

/// An instanced prop with a mesh and instances is drawn by one cluster of all its
/// instances: to its own distance, with the slots and the material of its material or,
/// without one, with the slot of its texture and the default material; with neither, the
/// slot is the first. The cluster's box is what its mesh's box comes to under all the
/// instances.
pub proof fn law_instanced_prop_is_drawn_as_it_asks<F: Fn(Vec3, Vec3, Mat4) -> (Vec3, Vec3)>(
    inputs: SceneInputs,
    transform: F,
    order: Seq<AssetId>,
    out: DrawListData,
    i: int,
)
    requires
        inputs.is_order(order),
        is_outcome(inputs, transform, order, Ok(out)),
        0 <= i < inputs.instanced_props@.len(),
        inputs.instanced_props@[i].mesh is Some,
        inputs.instanced_props@[i].instances@.len() > 0,
    ensures
        exists|k: int|
            0 <= k < out.instanced_clusters@.len() && {
            let inst = inputs.instanced_props@[i];
            let cluster = #[trigger] out.instanced_clusters@[k];
            let mesh = inputs.mesh_geometry@[inst.mesh->0];
            &&& inputs.mesh_geometry@.dom().contains(inst.mesh->0)
            &&& cluster.instances@ == inst.instances@
            &&& cluster.cull_distance == inst.cull_distance
            &&& inst.material matches Some(m) ==> {
                &&& cluster.texture_slot == inputs.material_map@[m].texture_slot
                &&& cluster.normal_map_slot == inputs.material_map@[m].normal_map_slot
                &&& cluster.material == inputs.material_map@[m].uniforms
            }
            &&& inst.material is None ==> {
                &&& cluster.texture_slot == match inst.texture {
                    Some(t) => inputs.texture_name_to_slot@[t],
                    None => 0,
                }
                &&& cluster.normal_map_slot == 0
                &&& cluster.material == inputs.default_material
            }
            &&& cluster.vertex_count == mesh.vertices@.len()
            &&& cluster.index_count == mesh.indices@.len()
            &&& bounds(mesh.vertices@, cluster.local_bb_min, cluster.local_bb_max)
            &&& is_cluster_box(
                transform,
                cluster.local_bb_min,
                cluster.local_bb_max,
                inst.instances@,
                cluster.cluster_bb_min,
                cluster.cluster_bb_max,
            )
        },
{
    let sources = inputs.sources(order)->Ok_0;
    let n = inputs.instanced_props@.len();
    let placed = inputs.placed(inputs.props@.len())->Ok_0;
    let b = inputs.batches(n)->Ok_0;
    lemma_batch_at(inputs, i as nat, n);
    let q = inputs.batches(i as nat)->Ok_0.len();
    let at = placed.len() + q;
    assert(sources[at as int] == b[q as int]);
    lemma_ranks_of_batches(inputs, order, q);
    let is_obj = |k: int, o: DrawObject| is_object(inputs, transform, sources, k, o);
    let is_clu = |k: int, c: InstancedCluster| is_cluster(inputs, transform, sources, k, c);
    assert(drawn(
        sources,
        at as int,
        out.draw_objects@,
        out.instanced_clusters@,
        is_obj,
        is_clu,
    ));
    lemma_rank_below(sources, at, sources.len());
    assert(cluster_rank(sources, at) == q);
    assert(inputs.instanced_props.len() == inputs.instanced_props@.len());
    assert(inputs.geometry(sources)[at as int]
        == inputs.mesh_geometry@[inputs.instanced_props@[i].mesh->0]);
    let c = out.instanced_clusters@[q as int];
    assert(is_cluster(inputs, transform, sources, at as int, c));
}

/// The box of a cluster holds the box of every instance whose corners are numbers.
pub proof fn law_cluster_box_holds_its_instances<F: Fn(Vec3, Vec3, Mat4) -> (Vec3, Vec3)>(
    transform: F,
    local_lo: Vec3,
    local_hi: Vec3,
    matrices: Seq<Mat4>,
    lo: Vec3,
    hi: Vec3,
    moved: Seq<(Vec3, Vec3)>,
    i: int,
    axis: int,
)
    requires
        is_cluster_box(transform, local_lo, local_hi, matrices, lo, hi),
        moved.len() == matrices.len(),
        forall|j: int, b: (Vec3, Vec3)|
            0 <= j < matrices.len() && #[trigger] call_ensures(
                transform,
                (local_lo, local_hi, matrices[j]),
                b,
            ) ==> b == moved[j],
        0 <= i < matrices.len(),
        0 <= axis < 3,
        !moved[i].0[axis].nan(),
        !moved[i].1[axis].nan(),
    ensures
        lo[axis].at_most(moved[i].0[axis]),
        moved[i].1[axis].at_most(hi[axis]),
{
    let boxes = choose|boxes: Seq<(Vec3, Vec3)>|
        #![trigger moves_all(transform, local_lo, local_hi, matrices, boxes)]
        moves_all(transform, local_lo, local_hi, matrices, boxes) && forall|a: int|
            0 <= a < 3 ==> #[trigger] lo[a] == union_min(boxes, a) && hi[a] == union_max(boxes, a);
    assert(boxes[i] == moved[i]);
    assert(lo[axis] == union_min(boxes, axis));
    lemma_union_holds(boxes, axis, i);
}

proof fn lemma_union_holds(boxes: Seq<(Vec3, Vec3)>, axis: int, i: int)
    requires
        0 <= axis < 3,
    ensures
        !union_min(boxes, axis).nan(),
        !union_max(boxes, axis).nan(),
        0 <= i < boxes.len() && !boxes[i].0[axis].nan() ==> union_min(boxes, axis).at_most(
            boxes[i].0[axis],
        ),
        0 <= i < boxes.len() && !boxes[i].1[axis].nan() ==> boxes[i].1[axis].at_most(
            union_max(boxes, axis),
        ),
    decreases boxes.len(),
{
    if boxes.len() > 0 {
        lemma_union_holds(boxes.drop_last(), axis, i);
        if 0 <= i < boxes.len() - 1 {
            assert(boxes.drop_last()[i] == boxes[i]);
        }
    }
}

proof fn lemma_all_loose(inputs: SceneInputs, order: Seq<AssetId>, k: nat, x: int)
    requires
        0 <= x < inputs.loose(order, k).len(),
    ensures
        inputs.loose(order, k)[x] is Loose,
    decreases k,
{
    if k > 0 {
        let before = inputs.loose(order, (k - 1) as nat);
        if x < before.len() {
            lemma_all_loose(inputs, order, (k - 1) as nat, x);
            assert(inputs.loose(order, k)[x] == before[x]);
        }
    }
}

proof fn lemma_room_at(inputs: SceneInputs, n: nat, r: int)
    requires
        n <= inputs.room_geometry@.len(),
        inputs.rooms(n) is Ok,
        0 <= r < n,
    ensures
        inputs.rooms(n)->Ok_0.len() == n,
        inputs.texture_slot(inputs.room_geometry@[r].texture) is Some,
        inputs.rooms(n)->Ok_0[r] == (Source::Room {
            room: r as usize,
            texture_slot: inputs.texture_slot(inputs.room_geometry@[r].texture)->0,
        }),
    decreases n,
{
    let before = inputs.rooms((n - 1) as nat)->Ok_0;
    if n > 1 {
        lemma_room_at(inputs, (n - 1) as nat, if r < n - 1 { r } else { 0 });
        if r < n - 1 {
            assert(inputs.rooms(n)->Ok_0[r] == before[r]);
        }
    } else {
        assert(inputs.rooms(0) == Ok::<Seq<Source>, DrawListError>(Seq::empty()));
    }
}

proof fn lemma_ranks_of_rest(inputs: SceneInputs, order: Seq<AssetId>, x: nat)
    requires
        inputs.sources(order) is Ok,
        x <= inputs.loose(order, order.len()).len() + inputs.room_geometry@.len(),
        inputs.rooms(inputs.room_geometry@.len())->Ok_0.len() == inputs.room_geometry@.len(),
    ensures
        ({
            let p = inputs.placed(inputs.props@.len())->Ok_0.len();
            let b = inputs.batches(inputs.instanced_props@.len())->Ok_0.len();
            object_rank(inputs.sources(order)->Ok_0, p + b + x) == p + x
        }),
    decreases x,
{
    let all = inputs.sources(order)->Ok_0;
    let p = inputs.placed(inputs.props@.len())->Ok_0.len();
    let b = inputs.batches(inputs.instanced_props@.len())->Ok_0.len();
    let loose = inputs.loose(order, order.len());
    let n = inputs.room_geometry@.len();
    if x > 0 {
        lemma_ranks_of_rest(inputs, order, (x - 1) as nat);
        if x - 1 < loose.len() {
            lemma_all_loose(inputs, order, order.len(), x - 1);
            assert(all[p + b + x - 1] == loose[x - 1]);
        } else {
            let r = x - 1 - loose.len();
            lemma_room_at(inputs, n, r);
            assert(all[p + b + x - 1] == inputs.rooms(n)->Ok_0[r]);
        }
    } else {
        lemma_ranks_of_batches(inputs, order, b);
    }
}

proof fn lemma_rooms_len(inputs: SceneInputs, n: nat)
    requires
        n <= inputs.room_geometry@.len(),
        inputs.rooms(n) is Ok,
    ensures
        inputs.rooms(n)->Ok_0.len() == n,
{
    if n > 0 {
        lemma_room_at(inputs, n, 0);
    }
}

/// A room is drawn once, where it was built: with the slot of its texture or, without one,
/// with the first, with the default material, whole, at any distance, and never culled.
pub proof fn law_room_is_drawn_as_it_asks<F: Fn(Vec3, Vec3, Mat4) -> (Vec3, Vec3)>(
    inputs: SceneInputs,
    transform: F,
    order: Seq<AssetId>,
    out: DrawListData,
    r: int,
)
    requires
        inputs.is_order(order),
        is_outcome(inputs, transform, order, Ok(out)),
        0 <= r < inputs.room_geometry@.len(),
    ensures
        ({
            let room = inputs.room_geometry@[r];
            let d = out.draw_objects@.len() - inputs.room_geometry@.len() + r;
            let obj = out.draw_objects@[d];
            &&& 0 <= d
            &&& obj.model == inputs.identity
            &&& obj.texture_slot == match room.texture {
                Some(t) => inputs.texture_name_to_slot@[t],
                None => 0,
            }
            &&& obj.normal_map_slot == 0
            &&& obj.material == inputs.default_material
            &&& obj.cull_distance.bits == 0
            &&& !finite_box(obj.bb_min, obj.bb_max)
            &&& obj.vertex_count == room.mesh.vertices@.len()
            &&& obj.index_count == room.mesh.indices@.len()
            &&& obj.lod_alternates@.len() == room.mesh.lod_alternates@.len()
        }),
{
    let sources = inputs.sources(order)->Ok_0;
    let n = inputs.room_geometry@.len();
    let p = inputs.placed(inputs.props@.len())->Ok_0.len();
    let b = inputs.batches(inputs.instanced_props@.len())->Ok_0.len();
    let l = inputs.loose(order, order.len()).len();
    lemma_room_at(inputs, n, r);
    lemma_rooms_len(inputs, n);
    lemma_ranks_of_rest(inputs, order, l + n);
    lemma_ranks_of_rest(inputs, order, (l + r) as nat);
    let at = p + b + l + r;
    assert(sources.len() == p + b + l + n);
    assert(sources[at] == inputs.rooms(n)->Ok_0[r]);
    assert(inputs.room_geometry.len() == n);
    let is_obj = |k: int, o: DrawObject| is_object(inputs, transform, sources, k, o);
    let is_clu = |k: int, c: InstancedCluster| is_cluster(inputs, transform, sources, k, c);
    assert(drawn(sources, at, out.draw_objects@, out.instanced_clusters@, is_obj, is_clu));
    assert(inputs.geometry(sources)[at] == inputs.room_geometry@[r].mesh);
    assert(p + b + (l + r) as nat == at);
    assert(p + b + (l + n) == sources.len());
    assert(out.draw_objects@.len() == p + l + n);
    let obj = out.draw_objects@[p + l + r];
    assert(is_object(inputs, transform, sources, at, obj));
}

/// A mesh that nothing refers to is drawn once, where it was built, with the first slot and
/// the default material, at any distance, and never culled.
pub proof fn law_loose_mesh_is_drawn_plainly<F: Fn(Vec3, Vec3, Mat4) -> (Vec3, Vec3)>(
    inputs: SceneInputs,
    transform: F,
    order: Seq<AssetId>,
    out: DrawListData,
    mesh: AssetId,
)
    requires
        inputs.is_order(order),
        is_outcome(inputs, transform, order, Ok(out)),
        inputs.mesh_geometry@.dom().contains(mesh),
        !inputs.referenced(mesh),
    ensures
        exists|d: int|
            0 <= d < out.draw_objects@.len() && {
                let obj = #[trigger] out.draw_objects@[d];
                &&& obj.model == inputs.identity
                &&& obj.texture_slot == 0
                &&& obj.normal_map_slot == 0
                &&& obj.material == inputs.default_material
                &&& obj.cull_distance.bits == 0
                &&& !finite_box(obj.bb_min, obj.bb_max)
                &&& obj.vertex_count == inputs.mesh_geometry@[mesh].vertices@.len()
                &&& obj.index_count == inputs.mesh_geometry@[mesh].indices@.len()
                &&& obj.lod_alternates@.len() == 0
                &&& out.mesh_id_to_draws@.dom().contains(mesh)
                &&& out.mesh_id_to_draws@[mesh]@.contains(d as usize)
            },
{
    let sources = inputs.sources(order)->Ok_0;
    let n = inputs.room_geometry@.len();
    let p = inputs.placed(inputs.props@.len())->Ok_0.len();
    let b = inputs.batches(inputs.instanced_props@.len())->Ok_0.len();
    let loose = inputs.loose(order, order.len());
    law_loose_meshes_are_drawn(inputs, order, mesh);
    let x = choose|x: int| 0 <= x < loose.len() && loose[x] == (Source::Loose { mesh });
    lemma_rooms_len(inputs, n);
    lemma_ranks_of_rest(inputs, order, loose.len() + n);
    lemma_ranks_of_rest(inputs, order, x as nat);
    let at = p + b + x;
    assert(sources.len() == p + b + loose.len() + n);
    assert(sources[at] == loose[x]);
    let is_obj = |k: int, o: DrawObject| is_object(inputs, transform, sources, k, o);
    let is_clu = |k: int, c: InstancedCluster| is_cluster(inputs, transform, sources, k, c);
    assert(drawn(sources, at, out.draw_objects@, out.instanced_clusters@, is_obj, is_clu));
    assert(inputs.geometry(sources)[at] == inputs.mesh_geometry@[mesh]);
    assert(p + b + x as nat == at);
    assert(p + b + (loose.len() + n) == sources.len());
    assert(out.draw_objects@.len() == p + loose.len() + n);
    let obj = out.draw_objects@[p + x];
    assert(is_object(inputs, transform, sources, at, obj));
    lemma_draw_is_listed(sources, sources.len(), at, mesh);
    assert(out.mesh_id_to_draws@.dom().contains(mesh));
}

/// A prop's error is true of it. Without a model, the prop names no mesh, or a mesh, a
/// material or, for want of a material, a texture that is not there; with one, the model is
/// not there, or one of its sub-meshes names no mesh, or a mesh or a material that is not
/// there.
pub proof fn law_prop_error_is_true(inputs: SceneInputs, i: int, e: DrawListError)
    requires
        0 <= i < inputs.props@.len(),
        inputs.prop_sources(i) == Err::<Seq<Source>, DrawListError>(e),
    ensures
        ({
            let p = inputs.props@[i];
            let subs = inputs.model_map@[p.model->0]@;
            match e {
                DrawListError::UnknownModel { prop, model } => p.asset_id == prop && p.model
                    == Some(model) && !inputs.model_map@.dom().contains(model),
                DrawListError::SubMeshWithoutMesh { model } => p.model == Some(model)
                    && inputs.model_map@.dom().contains(model) && exists|j: int|
                    0 <= j < subs.len() && (#[trigger] subs[j]).mesh is None,
                DrawListError::UnknownSubMesh { model, mesh } => p.model == Some(model)
                    && inputs.model_map@.dom().contains(model)
                    && !inputs.mesh_geometry@.dom().contains(mesh) && exists|j: int|
                    0 <= j < subs.len() && (#[trigger] subs[j]).mesh == Some(mesh),
                DrawListError::UnknownSubMaterial { model, material } => p.model == Some(model)
                    && inputs.model_map@.dom().contains(model)
                    && !inputs.material_map@.dom().contains(material) && exists|j: int|
                    0 <= j < subs.len() && (#[trigger] subs[j]).material == Some(material),
                DrawListError::PropWithoutMesh { prop } => p.asset_id == prop && p.model is None
                    && p.mesh is None,
                DrawListError::UnknownMesh { prop, mesh } => p.asset_id == prop && p.model is None
                    && p.mesh == Some(mesh) && !inputs.mesh_geometry@.dom().contains(mesh),
                DrawListError::UnknownMaterial { prop, material } => p.asset_id == prop
                    && p.model is None && p.material == Some(material)
                    && !inputs.material_map@.dom().contains(material),
                DrawListError::UnknownTexture { owner, texture } => p.asset_id == owner
                    && p.model is None && p.material is None && p.texture == Some(texture)
                    && !inputs.texture_name_to_slot@.dom().contains(texture),
                DrawListError::UnknownInstancedMesh { .. } => false,
                DrawListError::UnknownInstancedMaterial { .. } => false,
            }
        }),
{
    let p = inputs.props@[i];
    match p.model {
        Some(model) => {
            if inputs.model_map@.dom().contains(model) {
                let subs = inputs.model_map@[model]@;
                let j = lemma_sub_fails(inputs, i, model, subs, subs.len());
                let sub = subs[j];
                assert(inputs.sub_source(i, model, sub) == Err::<Source, DrawListError>(e));
            }
        },
        None => {},
    }
}

proof fn lemma_sub_fails(
    inputs: SceneInputs,
    prop: int,
    model: AssetId,
    subs: Seq<SubMeshRef>,
    k: nat,
) -> (j: int)
    requires
        k <= subs.len(),
        inputs.sub_sources(prop, model, subs, k) is Err,
    ensures
        0 <= j < k,
        inputs.sub_source(prop, model, subs[j]) is Err,
        inputs.sub_source(prop, model, subs[j])->Err_0 == inputs.sub_sources(
            prop,
            model,
            subs,
            k,
        )->Err_0,
    decreases k,
{
    if k == 0 {
        0
    } else if inputs.sub_sources(prop, model, subs, (k - 1) as nat) is Err {
        lemma_sub_fails(inputs, prop, model, subs, (k - 1) as nat)
    } else {
        k - 1
    }
}

/// An instanced prop's error is true of it: it has a mesh and instances, and its mesh, its
/// material or, for want of a material, its texture is not there. It is the error of the
/// first one that has any.
pub proof fn law_instanced_error_is_true(inputs: SceneInputs, n: nat, e: DrawListError)
    requires
        n <= inputs.instanced_props@.len(),
        inputs.batches(n) == Err::<Seq<Source>, DrawListError>(e),
    ensures
        exists|i: int|
            0 <= i < n && {
                let p = #[trigger] inputs.instanced_props@[i];
                &&& p.mesh is Some && p.instances@.len() > 0
                &&& match e {
                    DrawListError::UnknownInstancedMesh { prop, mesh } => p.asset_id == prop
                        && p.mesh == Some(mesh) && !inputs.mesh_geometry@.dom().contains(mesh),
                    DrawListError::UnknownInstancedMaterial { prop, material } => p.asset_id
                        == prop && p.material == Some(material)
                        && !inputs.material_map@.dom().contains(material),
                    DrawListError::UnknownTexture { owner, texture } => p.asset_id == owner
                        && p.material is None && p.texture == Some(texture)
                        && !inputs.texture_name_to_slot@.dom().contains(texture),
                    _ => false,
                }
                &&& forall|k: int|
                    0 <= k < i ==> inputs.has_batch(#[trigger] inputs.instanced_props@[k])
            },
    decreases n,
{
    if n > 0 {
        if inputs.batches((n - 1) as nat) is Err {
            law_instanced_error_is_true(inputs, (n - 1) as nat, e);
        } else {
            lemma_batches_ok(inputs, (n - 1) as nat);
            let p = inputs.instanced_props@[n - 1];
            assert(p.mesh is Some && p.instances@.len() > 0);
        }
    }
}

/// A room's error is true of it: its texture is not there. It is the error of the first one
/// that has any.
pub proof fn law_room_error_is_true(inputs: SceneInputs, n: nat, e: DrawListError)
    requires
        n <= inputs.room_geometry@.len(),
        inputs.rooms(n) == Err::<Seq<Source>, DrawListError>(e),
    ensures
        e is UnknownTexture,
        !inputs.texture_name_to_slot@.dom().contains(e->texture),
        exists|i: int|
            0 <= i < n && {
                let room = #[trigger] inputs.room_geometry@[i];
                &&& room.asset_id == e->owner
                &&& room.texture == Some(e->texture)
                &&& forall|k: int|
                    0 <= k < i && (#[trigger] inputs.room_geometry@[k]).texture is Some
                        ==> inputs.texture_name_to_slot@.dom().contains(
                        inputs.room_geometry@[k].texture->0,
                    )
            },
    decreases n,
{
    if n > 0 {
        if inputs.rooms((n - 1) as nat) is Err {
            law_room_error_is_true(inputs, (n - 1) as nat, e);
        } else {
            lemma_rooms_ok(inputs, (n - 1) as nat);
            let room = inputs.room_geometry@[n - 1];
            assert(room.texture is Some);
        }
    }
}

/// The error of a scene is that of its first prop with one; where the props have none, that
/// of the instanced props; and where those have none either, that of the rooms.
pub proof fn law_first_error_is_reported(
    inputs: SceneInputs,
    order: Seq<AssetId>,
    e: DrawListError,
)
    requires
        inputs.sources(order) == Err::<Seq<Source>, DrawListError>(e),
    ensures
        (exists|i: int|
            0 <= i < inputs.props@.len() && #[trigger] inputs.prop_sources(i) == Err::<
                Seq<Source>,
                DrawListError,
            >(e) && forall|k: int|
                0 <= k < i ==> inputs.has_prop(#[trigger] inputs.props@[k])) || (forall|k: int|
            0 <= k < inputs.props@.len() ==> inputs.has_prop(#[trigger] inputs.props@[k]))
            && match inputs.batches(inputs.instanced_props@.len()) {
            Err(f) => e == f,
            Ok(_) => inputs.rooms(inputs.room_geometry@.len()) == Err::<Seq<Source>, DrawListError>(
                e,
            ),
        },
{
    let n = inputs.props@.len();
    if inputs.placed(n) is Err {
        let i = lemma_prop_fails(inputs, n);
        assert(inputs.prop_sources(i) == Err::<Seq<Source>, DrawListError>(e));
    } else {
        lemma_placed_ok(inputs, n);
        assert forall|k: int| 0 <= k < n implies inputs.has_prop(#[trigger] inputs.props@[k]) by {
            assert(inputs.prop_sources(k) is Ok);
            lemma_prop_ok(inputs, k);
        }
    }
}

proof fn lemma_prop_fails(inputs: SceneInputs, n: nat) -> (i: int)
    requires
        n <= inputs.props@.len(),
        inputs.placed(n) is Err,
    ensures
        0 <= i < n,
        inputs.prop_sources(i) == Err::<Seq<Source>, DrawListError>(inputs.placed(n)->Err_0),
        forall|k: int| 0 <= k < i ==> inputs.has_prop(#[trigger] inputs.props@[k]),
    decreases n,
{
    if n == 0 {
        0
    } else if inputs.placed((n - 1) as nat) is Err {
        lemma_prop_fails(inputs, (n - 1) as nat)
    } else {
        lemma_placed_ok(inputs, (n - 1) as nat);
        assert forall|k: int| 0 <= k < n - 1 implies inputs.has_prop(#[trigger] inputs.props@[k]) by {
            assert(inputs.prop_sources(k) is Ok);
            lemma_prop_ok(inputs, k);
        }
        n - 1
    }
}

/// A mesh is referred to by a prop that names it, by a prop with a model one of whose
/// sub-meshes names it, and by an instanced prop that names it; by nothing else.
pub proof fn law_mesh_is_referred_to_by_name(inputs: SceneInputs, mesh: AssetId, i: int, j: int)
    ensures
        0 <= i < inputs.props@.len() && inputs.props@[i].mesh == Some(mesh) ==> inputs.referenced(
            mesh,
        ),
        0 <= i < inputs.instanced_props@.len() && inputs.instanced_props@[i].mesh == Some(mesh)
            ==> inputs.referenced(mesh),
        0 <= i < inputs.props@.len() && inputs.props@[i].model is Some
            && inputs.model_map@.dom().contains(inputs.props@[i].model->0) && 0 <= j
            < inputs.model_map@[inputs.props@[i].model->0]@.len()
            && inputs.model_map@[inputs.props@[i].model->0]@[j].mesh == Some(mesh)
            ==> inputs.referenced(mesh),
        inputs.referenced(mesh) ==> {
            ||| exists|k: int|
                0 <= k < inputs.props@.len() && (#[trigger] inputs.props@[k]).mesh == Some(mesh)
            ||| exists|k: int|
                0 <= k < inputs.instanced_props@.len() && (
                #[trigger] inputs.instanced_props@[k]).mesh == Some(mesh)
            ||| exists|k: int, m: int|
                0 <= k < inputs.props@.len() && (#[trigger] inputs.props@[k]).model is Some && 0
                    <= m < inputs.model_map@[inputs.props@[k].model->0]@.len() && (
                #[trigger] inputs.model_map@[inputs.props@[k].model->0]@[m]).mesh == Some(mesh)
        },
{
    if 0 <= i < inputs.props@.len() {
        let p = inputs.props@[i];
        if p.model is Some && inputs.model_map@.dom().contains(p.model->0) {
            let subs = inputs.model_map@[p.model->0]@;
            assert(0 <= j < subs.len() && subs[j].mesh == Some(mesh) ==> subs_refer(subs, mesh));
        }
        assert(inputs.prop_refers(inputs.props@[i], mesh) ==> inputs.referenced(mesh));
    }
}

/// The table of a mesh lists draw objects of that mesh, each once, in order.
pub proof fn law_mesh_table_lists_its_draws<F: Fn(Vec3, Vec3, Mat4) -> (Vec3, Vec3)>(
    inputs: SceneInputs,
    transform: F,
    order: Seq<AssetId>,
    out: DrawListData,
    id: AssetId,
    m: int,
)
    requires
        inputs.is_order(order),
        is_outcome(inputs, transform, order, Ok(out)),
        out.mesh_id_to_draws@.dom().contains(id),
        0 <= m < out.mesh_id_to_draws@[id]@.len(),
    ensures
        ({
            let table = out.mesh_id_to_draws@[id]@;
            let obj = out.draw_objects@[table[m] as int];
            &&& inputs.mesh_geometry@.dom().contains(id)
            &&& table[m] < out.draw_objects@.len()
            &&& obj.vertex_count == inputs.mesh_geometry@[id].vertices@.len()
            &&& obj.index_count == inputs.mesh_geometry@[id].indices@.len()
            &&& m + 1 < table.len() ==> table[m] < table[m + 1]
        }),
{
    let sources = inputs.sources(order)->Ok_0;
    let n = sources.len();
    assert(out.mesh_id_to_draws@[id]@ == draws_of(sources, n, id));
    assert(out.draw_objects@.len() == out.draw_objects.len());
    lemma_rank_bounds(sources, n);
    lemma_table_entry(sources, n, id, m);
    let k = choose|k: int|
        0 <= k < n && #[trigger] draws_mesh(sources[k], id) && object_rank(sources, k as nat)
            == draws_of(sources, n, id)[m];
    assert(inputs.props.len() == inputs.props@.len());
    assert(inputs.instanced_props.len() == inputs.instanced_props@.len());
    assert(inputs.room_geometry.len() == inputs.room_geometry@.len());
    inputs.lemma_sources_valid(order);
    lemma_rank_below(sources, k as nat, n);
    let is_obj = |k: int, o: DrawObject| is_object(inputs, transform, sources, k, o);
    let is_clu = |k: int, c: InstancedCluster| is_cluster(inputs, transform, sources, k, c);
    assert(drawn(sources, k, out.draw_objects@, out.instanced_clusters@, is_obj, is_clu));
    assert(inputs.valid(sources[k]));
    assert(inputs.geometry(sources)[k] == inputs.mesh_geometry@[id]);
    let obj = out.draw_objects@[object_rank(sources, k as nat) as int];
    assert(is_object(inputs, transform, sources, k, obj));
}

proof fn lemma_table_entry(sources: Seq<Source>, n: nat, id: AssetId, m: int)
    requires
        n <= sources.len(),
        0 <= m < draws_of(sources, n, id).len(),
        object_rank(sources, n) <= usize::MAX,
    ensures
        exists|k: int|
            0 <= k < n && #[trigger] draws_mesh(sources[k], id) && object_rank(sources, k as nat)
                == draws_of(sources, n, id)[m],
        draws_of(sources, n, id)[m] < object_rank(sources, n),
        m + 1 < draws_of(sources, n, id).len() ==> draws_of(sources, n, id)[m] < draws_of(
            sources,
            n,
            id,
        )[m + 1],
    decreases n,
{
    let before = draws_of(sources, (n - 1) as nat, id);
    if m < before.len() {
        lemma_table_entry(sources, (n - 1) as nat, id, m);
        let k = choose|k: int|
            0 <= k < n - 1 && #[trigger] draws_mesh(sources[k], id) && object_rank(
                sources,
                k as nat,
            ) == before[m];
        assert(draws_mesh(sources[k], id));
    } else {
        assert(draws_mesh(sources[n - 1], id));
    }
}

} // verus!
