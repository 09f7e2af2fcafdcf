//! The GPU-facing records that render prep fills in.

use crate::float_bits::{FloatBits, Mat4, Vec3};
use vstd::prelude::*;

verus! {

/// A static mesh vertex.
#[derive(Debug, Clone, Copy)]
pub struct Vertex {
    pub pos: Vec3,
    pub normal: Vec3,
    pub tangent: Vec3,
    pub color: Vec3,
    pub uv: [FloatBits; 2],
}

/// The bytes of one [`Vertex`] in a vertex buffer: fourteen four-byte components.
pub const VERTEX_BYTES: usize = 56;

/// Scalars and secondary map slots of a material.
#[derive(Debug, Clone, Copy)]
pub struct MaterialUniforms {
    pub roughness: FloatBits,
    pub metallic: FloatBits,
    pub macro_variation: FloatBits,
    pub terrain_blend: FloatBits,
    pub tint: Vec3,
    pub emissive: Vec3,
    pub secondary_blend_sharpness: FloatBits,
    pub albedo_secondary_index: u32,
    pub normal_secondary_index: u32,
    pub emissive_map_index: u32,
    pub orm_map_index: u32,
    pub opacity: FloatBits,
    pub transparent: u32,
    pub see_through: u32,
}

/// The texture slots and scalars a draw samples.
#[derive(Debug, Clone, Copy)]
pub struct MaterialEntry {
    pub texture_slot: usize,
    pub normal_map_slot: usize,
    pub uniforms: MaterialUniforms,
}

/// An alternate level of detail: a slice of the shared index buffer and the
/// distance at which it takes over.
#[derive(Debug, Clone, Copy)]
pub struct LodSlice {
    pub index_offset: usize,
    pub index_count: usize,
    pub switch_distance: FloatBits,
}

/// One draw of static geometry.
#[derive(Debug)]
pub struct DrawObject {
    pub vertex_offset: usize,
    pub vertex_count: usize,
    pub index_offset: usize,
    pub index_count: usize,
    pub base_vertex: i32,
    pub model: Mat4,
    pub texture_slot: usize,
    pub normal_map_slot: usize,
    pub material: MaterialUniforms,
    pub visible: bool,
    pub resident: bool,
    pub bb_min: Vec3,
    pub bb_max: Vec3,
    pub cull_distance: FloatBits,
    pub lod_alternates: Vec<LodSlice>,
}

/// Every component of a box is finite.
pub open spec fn finite_box(lo: Vec3, hi: Vec3) -> bool {
    &&& lo[0].finite() && lo[1].finite() && lo[2].finite()
    &&& hi[0].finite() && hi[1].finite() && hi[2].finite()
}

/// Decide [`finite_box`].
pub fn is_finite_box(lo: Vec3, hi: Vec3) -> (r: bool)
    ensures
        r == finite_box(lo, hi),
{
    lo[0].is_finite() && lo[1].is_finite() && lo[2].is_finite() && hi[0].is_finite()
        && hi[1].is_finite() && hi[2].is_finite()
}

impl DrawObject {
    /// Whether the draw takes part in culling: its box is finite.
    pub fn cullable(&self) -> (r: bool)
        ensures
            r == finite_box(self.bb_min, self.bb_max),
    {
        is_finite_box(self.bb_min, self.bb_max)
    }
}

/// One GPU-instanced batch.
#[derive(Debug)]
pub struct InstancedCluster {
    pub vertex_offset: usize,
    pub vertex_count: usize,
    pub index_offset: usize,
    pub index_count: usize,
    pub texture_slot: usize,
    pub normal_map_slot: usize,
    pub material: MaterialUniforms,
    pub cluster_bb_min: Vec3,
    pub cluster_bb_max: Vec3,
    pub local_bb_min: Vec3,
    pub local_bb_max: Vec3,
    pub cull_distance: FloatBits,
    pub instances: Vec<Mat4>,
    pub lod_alternates: Vec<LodSlice>,
}

/// A box takes part in culling exactly where none of its components is infinite or no
/// number.
pub proof fn law_finite_box_by_its_patterns(lo: Vec3, hi: Vec3)
    ensures
        finite_box(lo, hi) <==> forall|a: int|
            0 <= a < 3 ==> (#[trigger] lo[a]).bits % 0x8000_0000 < 0x7f80_0000 && hi[a].bits
                % 0x8000_0000 < 0x7f80_0000,
{
    let all = forall|a: int|
        0 <= a < 3 ==> (#[trigger] lo[a]).bits % 0x8000_0000 < 0x7f80_0000 && hi[a].bits
            % 0x8000_0000 < 0x7f80_0000;
    if all {
        assert(lo[0].bits % 0x8000_0000 < 0x7f80_0000 && lo[1].bits % 0x8000_0000 < 0x7f80_0000
            && lo[2].bits % 0x8000_0000 < 0x7f80_0000);
    }
}

} // verus!
