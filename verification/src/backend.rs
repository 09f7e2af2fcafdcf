//! What passes between the renderer driver and a graphics backend.

use crate::geometry::LodAlternate;
use crate::render_types::Vertex;
use crate::skinned::SkinnedVertex;
use vstd::prelude::*;

verus! {

/// Fresh geometry of one draw, for a backend that rebuilds its shared buffers. Indices
/// are relative to the draw's own vertices.
#[derive(Debug)]
pub struct DrawGeometryUpdate {
    pub draw_idx: usize,
    pub vertices: Vec<Vertex>,
    pub indices: Vec<u16>,
    pub lod_alternates: Vec<LodAlternate>,
}

/// Fresh geometry of one skinned draw.
#[derive(Debug)]
pub struct SkinnedDrawGeometryUpdate {
    pub skinned_index: usize,
    pub vertices: Vec<SkinnedVertex>,
    pub indices: Vec<u16>,
}

/// Where one skinned draw stands after a rebuild.
#[derive(Debug, Clone, Copy, PartialEq, Eq, Structural)]
pub struct SkinnedSlotLayout {
    pub skinned_index: usize,
    pub vertex_base: u16,
    pub vertex_count: usize,
    pub index_count: usize,
}

/// What a device can do.
#[derive(Debug, Clone, Copy, PartialEq, Eq, Structural)]
pub struct DeviceCapabilities {
    /// Hardware ray tracing.
    pub ray_tracing: bool,
}

impl DeviceCapabilities {
    /// Every capability, which is assumed of a device that reports none.
    pub fn all() -> (r: DeviceCapabilities)
        ensures
            r == (DeviceCapabilities { ray_tracing: true }),
    {
        DeviceCapabilities { ray_tracing: true }
    }
}

impl Default for DeviceCapabilities {
    fn default() -> (r: DeviceCapabilities)
        ensures
            r == (DeviceCapabilities { ray_tracing: true }),
    {
        DeviceCapabilities::all()
    }
}

} // verus!
