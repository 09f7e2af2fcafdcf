//! Asset-streaming setup and the per-frame chunk bookkeeping.

use crate::chunk_coord::ChunkCoord;
use crate::chunk_window::{
    ChunkDetail, DETAIL_HYSTERESIS, EVICT_HYSTERESIS, Slot, full_within, is_plan, tracked_at,
};
use crate::coord_map::CoordMap;
use crate::float_bits::{FloatBits, Vec4};
use crate::order::strictly_ascending;
use crate::render_types::{MaterialEntry, MaterialUniforms, VERTEX_BYTES};
use crate::tables::{AssetId, lookup};
use std::collections::HashMap;
use vstd::prelude::*;

verus! {

/// An unbounded voxel world that streams around the camera.
#[derive(Debug)]
pub struct VoxelWorld {
    /// The radius, in chunks, of full detail.
    pub view_radius: u32,
    /// The radius of the impostors; one below the view radius means none.
    pub impostor_radius: u32,
    /// The blocks of a chunk along x, y and z.
    pub chunk_blocks: [u32; 3],
    /// The blocks one impostor cell covers along an axis.
    pub impostor_step: u32,
    pub palette: Vec<AssetId>,
    pub material: Option<AssetId>,
}

impl Default for VoxelWorld {
    fn default() -> (r: Self)
        ensures
            r.view_radius == 0,
            r.impostor_radius == 0,
            r.chunk_blocks@ == seq![16u32, 16u32, 16u32],
            r.impostor_step == 1,
            r.palette@.len() == 0,
            r.material is None,
    {
        let r = VoxelWorld {
            view_radius: 0,
            impostor_radius: 0,
            chunk_blocks: [16, 16, 16],
            impostor_step: 1,
            palette: Vec::new(),
            material: None,
        };
        assert(r.chunk_blocks@ =~= seq![16u32, 16u32, 16u32]);
        r
    }
}

/// The radius the streamer reaches: the impostor radius, at least the view radius.
pub open spec fn far_radius(vw: VoxelWorld) -> int {
    if vw.impostor_radius >= vw.view_radius {
        vw.impostor_radius as int
    } else {
        vw.view_radius as int
    }
}

impl VoxelWorld {
    /// The full-detail radius.
    pub fn view_radius(&self) -> (r: u32)
        ensures
            r == self.view_radius,
    {
        self.view_radius
    }

    /// The impostor radius, floored at the view radius.
    pub fn impostor_radius(&self) -> (r: u32)
        ensures
            r == far_radius(*self),
    {
        if self.impostor_radius >= self.view_radius {
            self.impostor_radius
        } else {
            self.view_radius
        }
    }
}

/// The most chunk records that are reserved.
pub const MAX_CHUNK_RECORDS: u64 = 65536;

/// The most bytes of chunk headroom that are reserved in either buffer.
pub const MAX_HEADROOM: u64 = 536_870_912;

/// The side of the square of chunks within a radius.
pub open spec fn side(radius: int) -> int {
    2 * radius + 1
}

/// The chunks of the square within a radius.
pub open spec fn square(radius: int) -> int {
    side(radius) * side(radius)
}

/// The lesser of two numbers.
pub open spec fn capped(a: int, b: int) -> int {
    if a <= b {
        a
    } else {
        b
    }
}

/// The number of chunks in the square within a radius.
fn square_chunks(radius: u64) -> (r: u64)
    requires
        radius <= 0x7fff_ffff,
    ensures
        r == square(radius as int),
{
    let s: u64 = 2 * radius + 1;
    assert(s * s <= 0xffff_ffff * 0xffff_ffff) by (nonlinear_arith)
        requires
            0 <= s <= 0xffff_ffff,
    ;
    s * s
}

/// The most chunks a streaming world can have resident, capped so that a typo in
/// the radii cannot demand gigabytes of record memory.
pub fn chunk_reserve_count(vw: &VoxelWorld) -> (r: usize)
    requires
        far_radius(*vw) + EVICT_HYSTERESIS <= i32::MAX,
    ensures
        r == capped(square(far_radius(*vw) + EVICT_HYSTERESIS), MAX_CHUNK_RECORDS as int),
        // The square two past the farther radius, and never above two to the sixteenth.
        r <= 65536,
        r < 65536 ==> r == (2 * far_radius(*vw) + 5) * (2 * far_radius(*vw) + 5),
        r == 65536 ==> (2 * far_radius(*vw) + 5) * (2 * far_radius(*vw) + 5) >= 65536,
{
    let n: u64 = square_chunks(vw.impostor_radius() as u64 + 2);
    if n <= MAX_CHUNK_RECORDS {
        n as usize
    } else {
        MAX_CHUNK_RECORDS as usize
    }
}

/// The chunk records reserved for a world suffice for whatever its window tracks
/// after any plan, as long as the window has fewer chunks than the cap.
pub proof fn law_reserve_covers_window(
    vw: VoxelWorld,
    reserve: int,
    near: int,
    budget: int,
    before: Map<ChunkCoord, Slot>,
    camera: ChunkCoord,
    to_load: Seq<(ChunkCoord, ChunkDetail)>,
    to_evict: Seq<ChunkCoord>,
    after: Map<ChunkCoord, Slot>,
)
    requires
        reserve == capped(square(far_radius(vw) + EVICT_HYSTERESIS), MAX_CHUNK_RECORDS as int),
        square(far_radius(vw) + EVICT_HYSTERESIS) <= MAX_CHUNK_RECORDS,
        near == vw.view_radius,
        is_plan(near, far_radius(vw), budget, before, camera, to_load, to_evict, after),
    ensures
        after.dom().finite(),
        after.dom().len() <= reserve,
{
    crate::chunk_window::law_plan_fits_window(
        near,
        far_radius(vw),
        budget,
        before,
        camera,
        to_load,
        to_evict,
        after,
    );
}

/// A quotient rounded up.
pub open spec fn ceil_div(a: int, b: int) -> int {
    (a + b - 1) / b
}

/// What the chunk buffers are sized from.
pub struct HeadroomInputs {
    pub near_radius: u32,
    pub far_radius: u32,
    pub chunk_blocks: [u32; 3],
    pub impostor_step: u32,
    pub vertex_bytes: u64,
}

impl HeadroomInputs {
    /// The chunks that are budgeted at full detail: those up to one ring past the near
    /// radius. Where the far band is empty, chunks stay at full detail for a ring more, as
    /// long as they are within the evict radius; that ring is budgeted as the far chunks are.
    pub open spec fn near_chunks(&self) -> int {
        square(self.near_radius + 1)
    }

    /// The chunks that are budgeted as impostors: the rest of the evict window.
    pub open spec fn far_chunks(&self) -> int {
        let rest = square(self.far_radius + 2) - self.near_chunks();
        if rest >= 0 {
            rest
        } else {
            0
        }
    }

    /// The faces budgeted for a full-detail chunk.
    pub open spec fn faces(&self) -> int {
        self.chunk_blocks[0] * self.chunk_blocks[2] * 4
    }

    /// The vertex bytes of a full-detail chunk: four vertices a face, as many as
    /// 16-bit indices reach.
    pub open spec fn full_vtx(&self) -> int {
        capped(self.faces() * 4, 0xffff) * self.vertex_bytes
    }

    /// The index bytes of a full-detail chunk: six 32-bit indices a face.
    pub open spec fn full_idx(&self) -> int {
        self.faces() * 6 * 4
    }

    /// The quads of an impostor: one a cell and a skirt round the perimeter.
    pub open spec fn impostor_quads(&self) -> int {
        let nx = ceil_div(self.chunk_blocks[0] as int, self.impostor_step as int);
        let nz = ceil_div(self.chunk_blocks[2] as int, self.impostor_step as int);
        nx * nz + 2 * (nx + nz)
    }

    /// The vertex bytes of an impostor: four vertices a quad.
    pub open spec fn impostor_vtx(&self) -> int {
        self.impostor_quads() * 4 * self.vertex_bytes
    }

    /// The index bytes of an impostor: six 32-bit indices a quad.
    pub open spec fn impostor_idx(&self) -> int {
        self.impostor_quads() * 6 * 4
    }

    /// The vertex bytes budgeted for the whole window.
    pub open spec fn vtx_bytes(&self) -> int {
        self.near_chunks() * self.full_vtx() + self.far_chunks() * self.impostor_vtx()
    }

    /// The index bytes budgeted for the whole window.
    pub open spec fn idx_bytes(&self) -> int {
        self.near_chunks() * self.full_idx() + self.far_chunks() * self.impostor_idx()
    }
}

proof fn lemma_nonneg(a: int, b: int)
    requires
        0 <= a,
        0 <= b,
    ensures
        0 <= a * b,
        b >= 1 ==> a <= a * b,
{
    assert(0 <= a * b) by (nonlinear_arith)
        requires
            0 <= a,
            0 <= b,
    ;
    if b >= 1 {
        assert(a <= a * b) by (nonlinear_arith)
            requires
                0 <= a,
                b >= 1,
        ;
    }
}

/// A number as far as sixty-four bits reach.
spec fn reach(a: int) -> int {
    capped(a, u64::MAX as int)
}

proof fn lemma_reach_product(a: int, b: int)
    requires
        0 <= a,
        0 <= b,
    ensures
        0 <= a * b,
        reach(reach(a) * reach(b)) == reach(a * b),
{
    lemma_nonneg(a, b);
    lemma_nonneg(b, a);
    lemma_nonneg(reach(a), reach(b));
    lemma_nonneg(reach(b), reach(a));
    assert(a * b == b * a) by (nonlinear_arith);
    assert(reach(a) * reach(b) == reach(b) * reach(a)) by (nonlinear_arith);
    if b == 0 {
        assert(a * b == 0 && reach(a) * reach(b) == 0) by (nonlinear_arith)
            requires
                b == 0,
                reach(b) == 0,
        ;
    }
    if a == 0 {
        assert(a * b == 0 && reach(a) * reach(b) == 0) by (nonlinear_arith)
            requires
                a == 0,
                reach(a) == 0,
        ;
    }
}

/// A product, as far as sixty-four bits reach.
fn times(a: u64, b: u64, Ghost(x): Ghost<int>, Ghost(y): Ghost<int>) -> (r: u64)
    requires
        0 <= x,
        0 <= y,
        a == reach(x),
        b == reach(y),
    ensures
        r == reach(x * y),
        0 <= x * y,
{
    proof {
        lemma_reach_product(x, y);
    }
    match a.checked_mul(b) {
        Some(v) => v,
        None => u64::MAX,
    }
}

/// A sum, as far as sixty-four bits reach.
fn plus(a: u64, b: u64, Ghost(x): Ghost<int>, Ghost(y): Ghost<int>) -> (r: u64)
    requires
        0 <= x,
        0 <= y,
        a == reach(x),
        b == reach(y),
    ensures
        r == reach(x + y),
{
    match a.checked_add(b) {
        Some(v) => v,
        None => u64::MAX,
    }
}

/// The vertex and index bytes reserved for streamed chunks: the evict window with full
/// meshes in the near band and impostors beyond it, capped in each buffer.
pub fn chunk_headroom(h: &HeadroomInputs) -> (r: (usize, usize))
    requires
        h.near_radius <= h.far_radius,
        h.far_radius + 2 <= 0x7fff_ffff,
        h.impostor_step > 0,
    ensures
        r.0 == capped(h.vtx_bytes(), MAX_HEADROOM as int),
        r.1 == capped(h.idx_bytes(), MAX_HEADROOM as int),
{
    let near_chunks: u64 = square_chunks(h.near_radius as u64 + 1);
    let total: u64 = square_chunks(h.far_radius as u64 + 2);
    proof {
        let a = side(h.near_radius + 1);
        let b = side(h.far_radius + 2);
        assert(a * a < b * b) by (nonlinear_arith)
            requires
                0 < a < b,
        ;
    }
    let far_chunks: u64 = total - near_chunks;
    let w: u64 = h.chunk_blocks[0] as u64;
    let d: u64 = h.chunk_blocks[2] as u64;
    let step: u64 = h.impostor_step as u64;
    let nx: u64 = (w + step - 1) / step;
    let nz: u64 = (d + step - 1) / step;
    let ghost gx = ceil_div(w as int, step as int);
    let ghost gz = ceil_div(d as int, step as int);
    proof {
        assert(nx == gx && nz == gz);
        lemma_nonneg(w as int, d as int);
        assert(w * d <= 0xffff_ffff * 0xffff_ffff) by (nonlinear_arith)
            requires
                0 <= w <= 0xffff_ffff,
                0 <= d <= 0xffff_ffff,
        ;
        vstd::arithmetic::div_mod::lemma_div_is_ordered_by_denominator(w + step - 1, 1, step as int);
        vstd::arithmetic::div_mod::lemma_div_is_ordered_by_denominator(d + step - 1, 1, step as int);
        vstd::arithmetic::div_mod::lemma_div_pos_is_pos(w + step - 1, step as int);
        vstd::arithmetic::div_mod::lemma_div_pos_is_pos(d + step - 1, step as int);
    }
    let faces: u64 = times(w * d, 4, Ghost(w * d), Ghost(4));
    let corners: u64 = times(faces, 4, Ghost(h.faces()), Ghost(4));
    let verts: u64 = if corners <= 0xffff {
        corners
    } else {
        0xffff
    };
    let full_vtx: u64 = times(
        verts,
        h.vertex_bytes,
        Ghost(capped(h.faces() * 4, 0xffff)),
        Ghost(h.vertex_bytes as int),
    );
    let full_six: u64 = times(faces, 6, Ghost(h.faces()), Ghost(6));
    let full_idx: u64 = times(full_six, 4, Ghost(h.faces() * 6), Ghost(4));
    let cells: u64 = times(nx, nz, Ghost(gx), Ghost(gz));
    let quads: u64 = plus(cells, 2 * (nx + nz), Ghost(gx * gz), Ghost(2 * (gx + gz)));
    let quad_corners: u64 = times(quads, 4, Ghost(h.impostor_quads()), Ghost(4));
    let impostor_vtx: u64 = times(
        quad_corners,
        h.vertex_bytes,
        Ghost(h.impostor_quads() * 4),
        Ghost(h.vertex_bytes as int),
    );
    let quad_six: u64 = times(quads, 6, Ghost(h.impostor_quads()), Ghost(6));
    let impostor_idx: u64 = times(quad_six, 4, Ghost(h.impostor_quads() * 6), Ghost(4));
    let ghost near = h.near_chunks();
    let ghost far = h.far_chunks();
    let near_vtx: u64 = times(near_chunks, full_vtx, Ghost(near), Ghost(h.full_vtx()));
    let far_vtx: u64 = times(
        far_chunks,
        impostor_vtx,
        Ghost(far),
        Ghost(h.impostor_quads() * 4 * h.vertex_bytes),
    );
    let near_idx: u64 = times(near_chunks, full_idx, Ghost(near), Ghost(h.full_idx()));
    let far_idx: u64 = times(
        far_chunks,
        impostor_idx,
        Ghost(far),
        Ghost(h.impostor_quads() * 6 * 4),
    );
    let vtx: u64 = plus(
        near_vtx,
        far_vtx,
        Ghost(near * h.full_vtx()),
        Ghost(far * (h.impostor_quads() * 4 * h.vertex_bytes)),
    );
    let idx: u64 = plus(
        near_idx,
        far_idx,
        Ghost(near * h.full_idx()),
        Ghost(far * (h.impostor_quads() * 6 * 4)),
    );
    (cap_headroom(vtx), cap_headroom(idx))
}

fn cap_headroom(bytes: u64) -> (r: usize)
    ensures
        r == capped(bytes as int, MAX_HEADROOM as int),
{
    if bytes <= MAX_HEADROOM {
        bytes as usize
    } else {
        MAX_HEADROOM as usize
    }
}

/// An authored block, by its texture rectangles.
#[derive(Debug, Clone, Copy)]
pub struct BlockType {
    pub solid: bool,
    pub uv_min: [FloatBits; 2],
    pub uv_max: [FloatBits; 2],
    pub uv_top: Option<Vec4>,
    pub uv_bottom: Option<Vec4>,
    pub uv_side: Option<Vec4>,
}

/// A palette entry of the chunk mesher.
#[derive(Debug, Clone, Copy)]
pub struct ChunkBlockType {
    pub solid: bool,
    pub uv_top: Vec4,
    pub uv_bottom: Vec4,
    pub uv_side: Vec4,
}

/// A face's rectangle: its own, or else the block's.
pub open spec fn face_rect(face: Option<Vec4>, bt: BlockType, rect: Vec4) -> bool {
    match face {
        Some(own) => rect == own,
        None => rect@ == seq![bt.uv_min[0], bt.uv_min[1], bt.uv_max[0], bt.uv_max[1]],
    }
}

/// A palette entry is that of a block.
pub open spec fn is_chunk_block(bt: BlockType, r: ChunkBlockType) -> bool {
    &&& r.solid == bt.solid
    &&& face_rect(bt.uv_top, bt, r.uv_top)
    &&& face_rect(bt.uv_bottom, bt, r.uv_bottom)
    &&& face_rect(bt.uv_side, bt, r.uv_side)
}

/// The palette entry of a block: per-face rectangles fall back to the block's.
pub fn block_type_to_chunk(bt: &BlockType) -> (r: ChunkBlockType)
    ensures
        is_chunk_block(*bt, r),
{
    let rect: Vec4 = [bt.uv_min[0], bt.uv_min[1], bt.uv_max[0], bt.uv_max[1]];
    assert(rect@ =~= seq![bt.uv_min[0], bt.uv_min[1], bt.uv_max[0], bt.uv_max[1]]);
    ChunkBlockType {
        solid: bt.solid,
        uv_top: bt.uv_top.unwrap_or(rect),
        uv_bottom: bt.uv_bottom.unwrap_or(rect),
        uv_side: bt.uv_side.unwrap_or(rect),
    }
}

/// A palette entry that is air.
pub open spec fn is_air(r: ChunkBlockType) -> bool {
    let z = crate::float_bits::zero();
    &&& !r.solid
    &&& r.uv_top@ == seq![z, z, z, z]
    &&& r.uv_bottom@ == seq![z, z, z, z]
    &&& r.uv_side@ == seq![z, z, z, z]
}

/// Whether a palette resolves a list of block ids; an unknown id is air.
pub open spec fn is_palette(
    ids: Seq<AssetId>,
    blocks: Map<u32, BlockType>,
    palette: Seq<ChunkBlockType>,
) -> bool {
    &&& palette.len() == ids.len()
    &&& forall|i: int|
        0 <= i < ids.len() ==> if blocks.dom().contains(ids[i]) {
            is_chunk_block(blocks[ids[i]], #[trigger] palette[i])
        } else {
            is_air(palette[i])
        }
}

/// Resolve the block palette of a voxel world.
pub fn resolve_palette(ids: &Vec<AssetId>, blocks: &HashMap<u32, BlockType>) -> (r: Vec<
    ChunkBlockType,
>)
    ensures
        is_palette(ids@, blocks@, r@),
{
    let z: FloatBits = FloatBits::new(0);
    let mut out: Vec<ChunkBlockType> = Vec::new();
    let mut i: usize = 0;
    while i < ids.len()
        invariant
            i <= ids@.len(),
            z == crate::float_bits::zero(),
            out@.len() == i,
            forall|k: int|
                0 <= k < i ==> if blocks@.dom().contains(ids@[k]) {
                    is_chunk_block(blocks@[ids@[k]], #[trigger] out@[k])
                } else {
                    is_air(out@[k])
                },
        decreases ids@.len() - i,
    {
        let entry: ChunkBlockType = match lookup(blocks, ids[i]) {
            Some(bt) => block_type_to_chunk(bt),
            None => {
                let air = ChunkBlockType {
                    solid: false,
                    uv_top: [z, z, z, z],
                    uv_bottom: [z, z, z, z],
                    uv_side: [z, z, z, z],
                };
                assert(air.uv_top@ =~= seq![z, z, z, z]);
                assert(air.uv_bottom@ =~= seq![z, z, z, z]);
                assert(air.uv_side@ =~= seq![z, z, z, z]);
                air
            },
        };
        out.push(entry);
        i = i + 1;
    }
    out
}

/// The shared material of the chunks: a material that is not known, or none, is
/// the default one.
pub fn chunk_material(
    material: Option<AssetId>,
    materials: &HashMap<u32, MaterialEntry>,
    default_material: MaterialUniforms,
) -> (r: MaterialEntry)
    ensures
        r == chunk_look(material, materials@, default_material),
{
    match material {
        Some(id) => match lookup(materials, id) {
            Some(e) => *e,
            None => MaterialEntry {
                texture_slot: 0,
                normal_map_slot: 0,
                uniforms: default_material,
            },
        },
        None => MaterialEntry { texture_slot: 0, normal_map_slot: 0, uniforms: default_material },
    }
}

/// What the chunk streamer of a voxel world is set up with.
#[derive(Debug)]
pub struct ChunkStreamSetup {
    pub palette: Vec<ChunkBlockType>,
    /// The texture slots and scalars that every chunk is drawn with.
    pub look: MaterialEntry,
    /// The bytes by which the vertex and index buffers grow.
    pub vtx_bytes: usize,
    pub idx_bytes: usize,
    pub near_radius: u32,
    pub far_radius: u32,
}

/// What the chunk buffers of a world are sized from.
pub open spec fn headroom_of(vw: VoxelWorld) -> HeadroomInputs {
    HeadroomInputs {
        near_radius: vw.view_radius,
        far_radius: far_radius(vw) as u32,
        chunk_blocks: vw.chunk_blocks,
        impostor_step: vw.impostor_step,
        vertex_bytes: VERTEX_BYTES as u64,
    }
}

proof fn lemma_bands_cover(full: int, impostors: int, near: int, far: int, big: int, small: int)
    requires
        0 <= full <= near,
        0 <= impostors,
        full + impostors <= near + far,
        0 <= small <= big,
    ensures
        full * big + impostors * small <= near * big + far * small,
{
    assert(full * big + impostors * small <= near * big + far * small) by (nonlinear_arith)
        requires
            0 <= full <= near,
            0 <= impostors,
            full + impostors <= near + far,
            0 <= small <= big,
    {
        assert(impostors * small <= (near + far - full) * small);
        assert((near - full) * small <= (near - full) * big);
        assert((near + far - full) * small == (near - full) * small + far * small);
        assert((near - full) * big == near * big - full * big);
    }
}

/// The headroom covers the window that a plan leaves: no more chunks are tracked than it
/// budgets for, and within one ring past the near radius no more at full detail than it
/// budgets at full detail. Where the far band is not empty no others are at full detail,
/// so meshes within the budgets of their chunks fit as long as an impostor is budgeted no
/// more than a full mesh. Where it is empty, the full-detail chunks of the last ring are
/// budgeted as impostors.
pub proof fn law_headroom_covers_window(
    vw: VoxelWorld,
    budget: int,
    before: Map<ChunkCoord, Slot>,
    camera: ChunkCoord,
    to_load: Seq<(ChunkCoord, ChunkDetail)>,
    to_evict: Seq<ChunkCoord>,
    after: Map<ChunkCoord, Slot>,
)
    requires
        vw.impostor_step > 0,
        is_plan(
            vw.view_radius as int,
            far_radius(vw) as int,
            budget,
            before,
            camera,
            to_load,
            to_evict,
            after,
        ),
    ensures
        ({
            let h = headroom_of(vw);
            let full = tracked_at(after, ChunkDetail::Near);
            let impostors = tracked_at(after, ChunkDetail::Far);
            &&& full.finite() && impostors.finite()
            &&& full.len() + impostors.len() <= h.near_chunks() + h.far_chunks()
            &&& full_within(after, camera, h.near_radius + DETAIL_HYSTERESIS).len()
                <= h.near_chunks()
            &&& h.near_radius < h.far_radius ==> {
                &&& full.len() <= h.near_chunks()
                &&& h.impostor_vtx() <= h.full_vtx() ==> full.len() * h.full_vtx()
                    + impostors.len() * h.impostor_vtx() <= h.vtx_bytes()
                &&& h.impostor_idx() <= h.full_idx() ==> full.len() * h.full_idx()
                    + impostors.len() * h.impostor_idx() <= h.idx_bytes()
            }
        }),
{
    let h = headroom_of(vw);
    let near = vw.view_radius as int;
    let far = far_radius(vw) as int;
    let full = tracked_at(after, ChunkDetail::Near);
    let impostors = tracked_at(after, ChunkDetail::Far);
    crate::chunk_window::law_plan_fits_window(
        near,
        far,
        budget,
        before,
        camera,
        to_load,
        to_evict,
        after,
    );
    crate::chunk_window::law_full_detail_fits_near_band(
        near,
        far,
        budget,
        before,
        camera,
        to_load,
        to_evict,
        after,
    );
    if near < far {
        let nx = ceil_div(vw.chunk_blocks[0] as int, vw.impostor_step as int);
        let nz = ceil_div(vw.chunk_blocks[2] as int, vw.impostor_step as int);
        vstd::arithmetic::div_mod::lemma_div_pos_is_pos(
            vw.chunk_blocks[0] + vw.impostor_step - 1,
            vw.impostor_step as int,
        );
        vstd::arithmetic::div_mod::lemma_div_pos_is_pos(
            vw.chunk_blocks[2] + vw.impostor_step - 1,
            vw.impostor_step as int,
        );
        lemma_nonneg(nx, nz);
        lemma_nonneg(h.impostor_quads() * 4, h.vertex_bytes as int);
        if h.impostor_vtx() <= h.full_vtx() {
            lemma_bands_cover(
                full.len() as int,
                impostors.len() as int,
                h.near_chunks(),
                h.far_chunks(),
                h.full_vtx(),
                h.impostor_vtx(),
            );
        }
        if h.impostor_idx() <= h.full_idx() {
            lemma_bands_cover(
                full.len() as int,
                impostors.len() as int,
                h.near_chunks(),
                h.far_chunks(),
                h.full_idx(),
                h.impostor_idx(),
            );
        }
    }
}

/// The shared look of a world's chunks.
pub open spec fn chunk_look(
    material: Option<AssetId>,
    materials: Map<u32, MaterialEntry>,
    default_material: MaterialUniforms,
) -> MaterialEntry {
    match material {
        Some(id) if materials.dom().contains(id) => materials[id],
        _ => MaterialEntry { texture_slot: 0, normal_map_slot: 0, uniforms: default_material },
    }
}

/// Set up the streaming of a voxel world: nothing where none is declared or there is
/// no backend to stream to.
pub fn setup_voxel_world_streaming(
    voxel_world: Option<&VoxelWorld>,
    has_backend: bool,
    blocks: &HashMap<u32, BlockType>,
    materials: &HashMap<u32, MaterialEntry>,
    default_material: MaterialUniforms,
) -> (r: Option<ChunkStreamSetup>)
    requires
        voxel_world matches Some(vw) ==> {
            &&& far_radius(*vw) + EVICT_HYSTERESIS <= i32::MAX
            &&& vw.impostor_step > 0
        },
    ensures
        r is Some <==> voxel_world is Some && has_backend,
        r matches Some(setup) ==> {
            let vw = *voxel_world->0;
            &&& is_palette(vw.palette@, blocks@, setup.palette@)
            &&& setup.look == chunk_look(vw.material, materials@, default_material)
            &&& setup.vtx_bytes == capped(headroom_of(vw).vtx_bytes(), MAX_HEADROOM as int)
            &&& setup.idx_bytes == capped(headroom_of(vw).idx_bytes(), MAX_HEADROOM as int)
            &&& setup.near_radius == vw.view_radius
            &&& setup.far_radius == far_radius(vw)
        },
{
    match voxel_world {
        Some(vw) => {
            if !has_backend {
                return None;
            }
            let near_radius: u32 = vw.view_radius();
            let far_radius: u32 = vw.impostor_radius();
            let (vtx_bytes, idx_bytes): (usize, usize) = chunk_headroom(
                &HeadroomInputs {
                    near_radius,
                    far_radius,
                    chunk_blocks: vw.chunk_blocks,
                    impostor_step: vw.impostor_step,
                    vertex_bytes: VERTEX_BYTES as u64,
                },
            );
            Some(
                ChunkStreamSetup {
                    palette: resolve_palette(&vw.palette, blocks),
                    look: chunk_material(vw.material, materials, default_material),
                    vtx_bytes,
                    idx_bytes,
                    near_radius,
                    far_radius,
                },
            )
        },
        None => None,
    }
}

/// Where a compiled payload stands.
#[derive(Debug, Clone, Copy)]
pub struct PayloadLocator {
    pub blob_index: u32,
    pub offset: u64,
    pub len: u64,
}

/// Where a payload stands in its blob file.
#[derive(Debug, Clone, Copy)]
pub struct DiskTextureLocator {
    pub blob_index: u32,
    pub file_offset: u64,
    pub len: u64,
}

/// The blobs of a list of locators, each once, in the order of first use.
pub open spec fn first_uses(locators: Seq<PayloadLocator>) -> Seq<u32>
    decreases locators.len(),
{
    if locators.len() == 0 {
        Seq::empty()
    } else {
        let before = first_uses(locators.drop_last());
        let blob = locators.last().blob_index;
        if before.contains(blob) {
            before
        } else {
            before.push(blob)
        }
    }
}

/// The blobs whose payload section has to be found before the payloads can be read
/// from disk.
pub fn blobs_to_probe(locators: &Vec<PayloadLocator>) -> (r: Vec<u32>)
    ensures
        r@ == first_uses(locators@),
{
    let mut out: Vec<u32> = Vec::new();
    let mut i: usize = 0;
    assert(locators@.subrange(0, 0) =~= Seq::empty());
    while i < locators.len()
        invariant
            i <= locators@.len(),
            out@ == first_uses(locators@.subrange(0, i as int)),
        decreases locators@.len() - i,
    {
        let blob: u32 = locators[i].blob_index;
        let mut known: bool = false;
        let mut j: usize = 0;
        while j < out.len()
            invariant
                j <= out@.len(),
                known == out@.subrange(0, j as int).contains(blob),
            decreases out@.len() - j,
        {
            proof {
                let head = out@.subrange(0, j as int);
                let next = out@.subrange(0, j + 1);
                assert(next =~= head.push(out@[j as int]));
                if head.contains(blob) {
                    let x = choose|x: int| 0 <= x < head.len() && head[x] == blob;
                    assert(next[x] == blob);
                }
                assert(next[j as int] == out@[j as int]);
                if next.contains(blob) {
                    let x = choose|x: int| 0 <= x < next.len() && next[x] == blob;
                    if x < j {
                        assert(head[x] == blob);
                    }
                }
            }
            if out[j] == blob {
                known = true;
            }
            j = j + 1;
        }
        assert(out@.subrange(0, j as int) =~= out@);
        assert(locators@.subrange(0, i + 1).drop_last() =~= locators@.subrange(0, i as int));
        if !known {
            out.push(blob);
        }
        i = i + 1;
    }
    assert(locators@.subrange(0, i as int) =~= locators@);
    out
}

/// Whether every locator's blob has a section start, and the payloads' ends can be
/// addressed.
pub open spec fn addressable(locators: Seq<PayloadLocator>, starts: Map<u32, u64>) -> bool {
    forall|i: int|
        0 <= i < locators.len() && starts.dom().contains((#[trigger] locators[i]).blob_index)
            ==> starts[locators[i].blob_index] + locators[i].offset <= u64::MAX
}

/// A payload's position in its blob file: the start of the blob's payload section
/// plus the payload's offset in it.
pub open spec fn on_disk(
    l: PayloadLocator,
    starts: Map<u32, u64>,
    d: DiskTextureLocator,
) -> bool {
    &&& starts.dom().contains(l.blob_index)
    &&& d.blob_index == l.blob_index
    &&& d.file_offset == starts[l.blob_index] + l.offset
    &&& d.len == l.len
}

/// The file positions of a list of payloads: the start of the blob's payload
/// section plus the payload's offset in it. Fails with the first blob whose section
/// start is not known.
pub fn disk_texture_locators(
    locators: &Vec<PayloadLocator>,
    section_starts: &HashMap<u32, u64>,
) -> (r: Result<Vec<DiskTextureLocator>, u32>)
    requires
        addressable(locators@, section_starts@),
    ensures
        match r {
            Ok(out) => {
                &&& out@.len() == locators@.len()
                &&& forall|i: int|
                    0 <= i < locators@.len() ==> on_disk(
                        #[trigger] locators@[i],
                        section_starts@,
                        out@[i],
                    )
            },
            Err(blob) => exists|i: int|
                0 <= i < locators@.len() && (#[trigger] locators@[i]).blob_index == blob
                    && !section_starts@.dom().contains(blob) && forall|j: int|
                    0 <= j < i ==> section_starts@.dom().contains(
                        (#[trigger] locators@[j]).blob_index,
                    ),
        },
{
    let mut out: Vec<DiskTextureLocator> = Vec::new();
    let mut i: usize = 0;
    while i < locators.len()
        invariant
            i <= locators@.len(),
            addressable(locators@, section_starts@),
            out@.len() == i,
            forall|k: int|
                0 <= k < i ==> on_disk(#[trigger] locators@[k], section_starts@, out@[k]),
        decreases locators@.len() - i,
    {
        let l: PayloadLocator = locators[i];
        assert(locators@[i as int].blob_index == l.blob_index);
        match lookup(section_starts, l.blob_index) {
            None => {
                return Err(l.blob_index);
            },
            Some(start) => {
                out.push(
                    DiskTextureLocator {
                        blob_index: l.blob_index,
                        file_offset: *start + l.offset,
                        len: l.len,
                    },
                );
            },
        }
        i = i + 1;
    }
    Ok(out)
}

/// The slots `first..first + count`.
fn slot_range(first: usize, count: usize) -> (r: Vec<usize>)
    requires
        first + count <= usize::MAX,
    ensures
        r@ == Seq::new(count as nat, |i: int| (first + i) as usize),
{
    let mut out: Vec<usize> = Vec::new();
    let mut i: usize = 0;
    while i < count
        invariant
            i <= count,
            first + count <= usize::MAX,
            out@ == Seq::new(i as nat, |k: int| (first + k) as usize),
        decreases count - i,
    {
        out.push(first + i);
        i = i + 1;
        assert(out@ =~= Seq::new(i as nat, |k: int| (first + k) as usize));
    }
    out
}

/// The number of streamed items of a texture pool. Payloads read from disk are not
/// kept, so their number is that of the locators.
pub open spec fn pool_size(disk_backed: bool, locators: usize, payloads: usize) -> usize {
    if disk_backed {
        locators
    } else {
        payloads
    }
}

/// The slots of the albedo pool to evict as its streaming starts, or `None` where
/// it does not start: nothing was configured, there is nothing to stream, or there
/// is no backend.
pub fn setup_texture_streaming(
    configured: bool,
    has_backend: bool,
    disk_backed: bool,
    locators: usize,
    payloads: usize,
) -> (r: Option<Vec<usize>>)
    ensures
        r is Some <==> configured && has_backend && pool_size(disk_backed, locators, payloads) > 0,
        r matches Some(slots) ==> slots@ == Seq::new(
            pool_size(disk_backed, locators, payloads) as nat,
            |i: int| i as usize,
        ),
{
    let n: usize = if disk_backed {
        locators
    } else {
        payloads
    };
    if !configured || n == 0 || !has_backend {
        return None;
    }
    let slots: Vec<usize> = slot_range(0, n);
    assert(slots@ =~= Seq::new(n as nat, |i: int| i as usize));
    Some(slots)
}

/// The slots of the normal-map pool to evict as its streaming starts. Item `i` is
/// pool slot `i + 1`: slot zero is the flat fallback and never streams.
pub fn setup_normal_map_streaming(
    configured: bool,
    has_backend: bool,
    disk_backed: bool,
    locators: usize,
    payloads: usize,
) -> (r: Option<Vec<usize>>)
    requires
        pool_size(disk_backed, locators, payloads) < usize::MAX,
    ensures
        r is Some <==> configured && has_backend && pool_size(disk_backed, locators, payloads) > 0,
        r matches Some(slots) ==> slots@ == Seq::new(
            pool_size(disk_backed, locators, payloads) as nat,
            |i: int| (i + 1) as usize,
        ),
{
    let n: usize = if disk_backed {
        locators
    } else {
        payloads
    };
    if !configured || n == 0 || !has_backend {
        return None;
    }
    let slots: Vec<usize> = slot_range(1, n);
    assert(slots@ =~= Seq::new(n as nat, |i: int| (i + 1) as usize));
    Some(slots)
}

/// The part of the buffers that a shrunk seed reserves for streamed meshes.
#[derive(Debug, Clone, Copy, PartialEq, Eq, Structural)]
pub struct MeshSeedRegion {
    pub vtx_offset: u64,
    pub vtx_bytes: u64,
    pub idx_offset: u64,
    pub idx_bytes: u64,
}

/// How mesh streaming starts.
#[derive(Debug)]
pub enum MeshStreamStart {
    /// Seed the sub-allocators with one block. The streamed draws hold no region.
    Seed(MeshSeedRegion),
    /// Free the regions of these draws, at retire frame zero.
    Evict(Vec<usize>),
}

/// Decide how mesh streaming starts, or that it does not.
pub fn setup_mesh_streaming(
    configured: bool,
    has_backend: bool,
    payloads: usize,
    seed_region: Option<MeshSeedRegion>,
    draws: Vec<usize>,
) -> (r: Option<MeshStreamStart>)
    ensures
        r is Some <==> configured && has_backend && payloads > 0,
        r matches Some(start) ==> match seed_region {
            Some(region) => start == MeshStreamStart::Seed(region),
            None => start == MeshStreamStart::Evict(draws),
        },
{
    if !configured || payloads == 0 || !has_backend {
        return None;
    }
    match seed_region {
        Some(region) => Some(MeshStreamStart::Seed(region)),
        None => Some(MeshStreamStart::Evict(draws)),
    }
}

/// The frame at which a freed region may be reused: when the frames in flight that
/// drew it have retired.
pub fn retire_frame(frame_count: u64, frames_in_flight: usize) -> (r: u64)
    requires
        frame_count + frames_in_flight <= u64::MAX,
    ensures
        r == frame_count + frames_in_flight,
{
    frame_count + frames_in_flight as u64
}

/// The draw of a streamed mesh, or `None` where the stream id has none.
pub fn stream_draw(draws: &Vec<usize>, stream_id: usize) -> (r: Option<usize>)
    ensures
        stream_id < draws@.len() ==> r == Some(draws@[stream_id as int]),
        stream_id >= draws@.len() ==> r is None,
{
    if stream_id < draws.len() {
        Some(draws[stream_id])
    } else {
        None
    }
}

/// The chunks on the GPU: which draw each has, and the chunk they are placed
/// relative to.
#[derive(Debug)]
pub struct ChunkStreamState {
    draws: CoordMap<usize>,
    origin_chunk: ChunkCoord,
}

/// A chunk's draw and its offset, in chunks, from the render origin.
#[derive(Debug, Clone, Copy, PartialEq, Eq, Structural)]
pub struct ChunkPlacement {
    pub draw: usize,
    pub dx: i64,
    pub dz: i64,
}

/// The offset of a chunk from the render origin, with its draw.
pub open spec fn placed_at(coord: ChunkCoord, origin: ChunkCoord, draw: usize) -> ChunkPlacement {
    ChunkPlacement {
        draw,
        dx: (coord.x - origin.x) as i64,
        dz: (coord.z - origin.z) as i64,
    }
}

/// The offset of a chunk from the render origin, in whole chunks, so that it is
/// exact however far the world origin is.
pub fn chunk_offset(coord: ChunkCoord, origin: ChunkCoord, draw: usize) -> (r: ChunkPlacement)
    ensures
        r == placed_at(coord, origin, draw),
{
    ChunkPlacement {
        draw,
        dx: coord.x as i64 - origin.x as i64,
        dz: coord.z as i64 - origin.z as i64,
    }
}

/// The draws that go as the first `k` of a list of chunks are evicted.
pub open spec fn evicted_draws(
    draws: Map<ChunkCoord, usize>,
    coords: Seq<ChunkCoord>,
    k: nat,
) -> Seq<usize>
    decreases k,
{
    if k == 0 {
        Seq::empty()
    } else {
        let before = evicted_draws(draws, coords, (k - 1) as nat);
        let c = coords[k - 1];
        if after_evictions(draws, coords, (k - 1) as nat).dom().contains(c) {
            before.push(after_evictions(draws, coords, (k - 1) as nat)[c])
        } else {
            before
        }
    }
}

/// The chunks that remain once the first `k` of a list were evicted.
pub open spec fn after_evictions(
    draws: Map<ChunkCoord, usize>,
    coords: Seq<ChunkCoord>,
    k: nat,
) -> Map<ChunkCoord, usize>
    decreases k,
{
    if k == 0 {
        draws
    } else {
        after_evictions(draws, coords, (k - 1) as nat).remove(coords[k - 1])
    }
}

impl ChunkStreamState {
    /// The draw of each resident chunk.
    pub closed spec fn draws(&self) -> Map<ChunkCoord, usize> {
        self.draws.map()
    }

    /// The resident chunks, in coordinate order.
    pub closed spec fn order(&self) -> Seq<ChunkCoord> {
        self.draws.keys()
    }

    /// The chunk that resident chunks are placed relative to.
    pub closed spec fn origin(&self) -> ChunkCoord {
        self.origin_chunk
    }

    /// The table of draws is in shape.
    pub closed spec fn is_kept(&self) -> bool {
        self.draws.wf()
    }

    /// The resident chunks are those with a draw, each listed once and in coordinate
    /// order.
    pub open spec fn wf(&self) -> bool {
        &&& self.is_kept()
        &&& strictly_ascending(self.order())
        &&& forall|c: ChunkCoord|
            #![trigger self.draws().dom().contains(c)]
            #![trigger self.order().contains(c)]
            self.draws().dom().contains(c) <==> self.order().contains(c)
    }

    /// No chunk is resident; the origin is the world's.
    pub fn new() -> (r: Self)
        ensures
            r.wf(),
            r.draws() == Map::<ChunkCoord, usize>::empty(),
            r.order() == Seq::<ChunkCoord>::empty(),
            r.origin() == (ChunkCoord { x: 0, z: 0 }),
    {
        ChunkStreamState { draws: CoordMap::new(), origin_chunk: ChunkCoord::new(0, 0) }
    }

    /// Drop evicted chunks and give back their draws, to be removed from the
    /// backend in this order. A chunk that was never resident has none.
    pub fn evict(&mut self, coords: &Vec<ChunkCoord>) -> (r: Vec<usize>)
        requires
            old(self).wf(),
        ensures
            final(self).wf(),
            final(self).origin() == old(self).origin(),
            final(self).draws() == after_evictions(old(self).draws(), coords@, coords@.len()),
            r@ == evicted_draws(old(self).draws(), coords@, coords@.len()),
    {
        let ghost before = self.draws();
        let mut out: Vec<usize> = Vec::new();
        let mut i: usize = 0;
        while i < coords.len()
            invariant
                i <= coords@.len(),
                self.wf(),
                self.origin() == old(self).origin(),
                self.draws() == after_evictions(before, coords@, i as nat),
                out@ == evicted_draws(before, coords@, i as nat),
            decreases coords@.len() - i,
        {
            match self.draws.remove(coords[i]) {
                Some(draw) => {
                    out.push(draw);
                },
                None => {},
            }
            i = i + 1;
        }
        out
    }

    /// Move the render origin to the camera's chunk. Where it changes, every
    /// resident chunk is placed anew, in coordinate order; where it does not,
    /// nothing moves.
    pub fn rebase(&mut self, camera: ChunkCoord) -> (r: Vec<ChunkPlacement>)
        requires
            old(self).wf(),
        ensures
            final(self).wf(),
            final(self).origin() == camera,
            final(self).draws() == old(self).draws(),
            final(self).order() == old(self).order(),
            camera == old(self).origin() ==> r@.len() == 0,
            camera != old(self).origin() ==> {
                &&& r@.len() == old(self).order().len()
                &&& forall|i: int|
                    0 <= i < r@.len() ==> #[trigger] r@[i] == placed_at(
                        old(self).order()[i],
                        camera,
                        old(self).draws()[old(self).order()[i]],
                    )
            },
    {
        let mut out: Vec<ChunkPlacement> = Vec::new();
        if camera != self.origin_chunk {
            let mut i: usize = 0;
            while i < self.draws.len()
                invariant
                    self.draws.wf(),
                    i <= self.draws.keys().len(),
                    out@.len() == i,
                    forall|k: int|
                        0 <= k < i ==> #[trigger] out@[k] == placed_at(
                            self.draws.keys()[k],
                            camera,
                            self.draws.map()[self.draws.keys()[k]],
                        ),
                decreases self.draws.keys().len() - i,
            {
                let (coord, draw): (ChunkCoord, usize) = self.draws.entry(i);
                out.push(chunk_offset(coord, camera, draw));
                i = i + 1;
            }
            self.origin_chunk = camera;
        }
        out
    }

    /// Record the draw of a chunk whose mesh was added.
    pub fn add(&mut self, coord: ChunkCoord, draw: usize)
        requires
            old(self).wf(),
        ensures
            final(self).wf(),
            final(self).origin() == old(self).origin(),
            final(self).draws() == old(self).draws().insert(coord, draw),
    {
        self.draws.insert(coord, draw);
    }
}

/// What remains after evictions is what was there and not evicted.
pub proof fn law_evict_removes_exactly(
    draws: Map<ChunkCoord, usize>,
    coords: Seq<ChunkCoord>,
    k: nat,
    c: ChunkCoord,
)
    requires
        k <= coords.len(),
    ensures
        after_evictions(draws, coords, k).dom().contains(c) <==> draws.dom().contains(c)
            && !coords.subrange(0, k as int).contains(c),
        after_evictions(draws, coords, k).dom().contains(c) ==> after_evictions(
            draws,
            coords,
            k,
        )[c] == draws[c],
    decreases k,
{
    if k > 0 {
        law_evict_removes_exactly(draws, coords, (k - 1) as nat, c);
        let head = coords.subrange(0, k - 1);
        let next = coords.subrange(0, k as int);
        assert(next =~= head.push(coords[k - 1]));
        if head.contains(c) {
            let i = choose|i: int| 0 <= i < head.len() && head[i] == c;
            assert(next[i] == c);
        }
        assert(next[k - 1] == coords[k - 1]);
        if next.contains(c) {
            let i = choose|i: int| 0 <= i < next.len() && next[i] == c;
            if i < k - 1 {
                assert(head[i] == c);
            }
        }
    }
}

/// Moving the origin leaves every chunk where it was: the difference between two
/// chunks' offsets does not depend on the origin.
pub proof fn law_rebase_keeps_relative_positions(
    a: ChunkCoord,
    b: ChunkCoord,
    from: ChunkCoord,
    to: ChunkCoord,
    draw: usize,
)
    ensures
        placed_at(a, to, draw).dx - placed_at(b, to, draw).dx == placed_at(a, from, draw).dx
            - placed_at(b, from, draw).dx,
        placed_at(a, to, draw).dz - placed_at(b, to, draw).dz == placed_at(a, from, draw).dz
            - placed_at(b, from, draw).dz,
{
}

/// A world streams as far as the farther of its two radii.
pub proof fn law_streams_to_the_farther_radius(vw: VoxelWorld)
    ensures
        far_radius(vw) >= vw.view_radius,
        far_radius(vw) >= vw.impostor_radius,
        far_radius(vw) == vw.view_radius || far_radius(vw) == vw.impostor_radius,
{
}

/// The headroom of a world is sized by that world: by its own radii, blocks and step, at the
/// size of a vertex.
pub proof fn law_headroom_is_sized_by_the_world(vw: VoxelWorld)
    ensures
        headroom_of(vw).near_radius == vw.view_radius,
        headroom_of(vw).far_radius == far_radius(vw),
        headroom_of(vw).chunk_blocks == vw.chunk_blocks,
        headroom_of(vw).impostor_step == vw.impostor_step,
        headroom_of(vw).vertex_bytes == 56,
{
}

/// The bands of the headroom are whole squares of chunks: full meshes in the square that
/// reaches one chunk past the near radius, and impostors in what is left of the one that
/// reaches two past the far radius.
pub proof fn law_headroom_bands_are_squares(h: HeadroomInputs)
    requires
        h.near_radius <= h.far_radius,
    ensures
        h.near_chunks() == (2 * h.near_radius + 3) * (2 * h.near_radius + 3),
        h.near_chunks() + h.far_chunks() == (2 * h.far_radius + 5) * (2 * h.far_radius + 5),
        h.far_chunks() > 0,
{
    let a = 2 * h.near_radius + 3;
    let b = 2 * h.far_radius + 5;
    assert(a * a < b * b) by (nonlinear_arith)
        requires
            0 < a < b,
    ;
}

/// A full mesh is budgeted four faces for each block of the chunk's ground plan: sixteen
/// vertices, as far as sixteen-bit indices reach them, and twenty-four indices of four bytes.
pub proof fn law_full_mesh_budget(h: HeadroomInputs, blocks: int)
    requires
        blocks == h.chunk_blocks[0] * h.chunk_blocks[2],
    ensures
        16 * blocks <= 65_535 ==> h.full_vtx() == 16 * blocks * h.vertex_bytes,
        16 * blocks > 65_535 ==> h.full_vtx() == 65_535 * h.vertex_bytes,
        h.full_idx() == 96 * blocks,
{
    assert(h.faces() == 4 * blocks);
}

/// The cells of an impostor just cover the chunk: one row fewer along either axis would
/// leave blocks out. Each cell and each cell's length of the rim is a quad of four vertices
/// and six indices of four bytes.
pub proof fn law_impostor_cells_cover_the_chunk(h: HeadroomInputs, nx: int, nz: int)
    requires
        h.impostor_step > 0,
        nx * h.impostor_step >= h.chunk_blocks[0] > (nx - 1) * h.impostor_step,
        nz * h.impostor_step >= h.chunk_blocks[2] > (nz - 1) * h.impostor_step,
    ensures
        h.impostor_quads() == nx * nz + 2 * nx + 2 * nz,
        h.impostor_idx() == 24 * h.impostor_quads(),
        h.impostor_vtx() == 4 * h.impostor_quads() * h.vertex_bytes,
{
    lemma_ceil_is_the_least(h.chunk_blocks[0] as int, h.impostor_step as int, nx);
    lemma_ceil_is_the_least(h.chunk_blocks[2] as int, h.impostor_step as int, nz);
}

proof fn lemma_ceil_is_the_least(a: int, b: int, n: int)
    requires
        b > 0,
        n * b >= a > (n - 1) * b,
    ensures
        ceil_div(a, b) == n,
{
    let r = a + b - 1 - n * b;
    assert((n - 1) * b == n * b - b) by (nonlinear_arith);
    assert(0 <= r < b);
    vstd::arithmetic::div_mod::lemma_fundamental_div_mod_converse(a + b - 1, b, n, r);
}

/// The headroom pays for each chunk of the near band at the budget of a full mesh and for
/// each other one at that of an impostor.
pub proof fn law_headroom_pays_for_each_chunk(h: HeadroomInputs)
    ensures
        h.vtx_bytes() == h.near_chunks() * h.full_vtx() + h.far_chunks() * h.impostor_vtx(),
        h.idx_bytes() == h.near_chunks() * h.full_idx() + h.far_chunks() * h.impostor_idx(),
        capped(h.vtx_bytes(), MAX_HEADROOM as int) <= 536_870_912,
        h.vtx_bytes() <= 536_870_912 ==> capped(h.vtx_bytes(), MAX_HEADROOM as int)
            == h.vtx_bytes(),
        h.idx_bytes() <= 536_870_912 ==> capped(h.idx_bytes(), MAX_HEADROOM as int)
            == h.idx_bytes(),
{
}

/// A face shows its own rectangle where the block gives it one, and otherwise the block's,
/// from its least corner to its greatest.
pub proof fn law_face_shows_its_rectangle(bt: BlockType, r: ChunkBlockType)
    requires
        is_chunk_block(bt, r),
    ensures
        r.solid == bt.solid,
        bt.uv_top matches Some(own) ==> r.uv_top == own,
        bt.uv_bottom matches Some(own) ==> r.uv_bottom == own,
        bt.uv_side matches Some(own) ==> r.uv_side == own,
        bt.uv_top is None ==> r.uv_top[0] == bt.uv_min[0] && r.uv_top[1] == bt.uv_min[1]
            && r.uv_top[2] == bt.uv_max[0] && r.uv_top[3] == bt.uv_max[1],
        bt.uv_bottom is None ==> r.uv_bottom[0] == bt.uv_min[0] && r.uv_bottom[1] == bt.uv_min[1]
            && r.uv_bottom[2] == bt.uv_max[0] && r.uv_bottom[3] == bt.uv_max[1],
        bt.uv_side is None ==> r.uv_side[0] == bt.uv_min[0] && r.uv_side[1] == bt.uv_min[1]
            && r.uv_side[2] == bt.uv_max[0] && r.uv_side[3] == bt.uv_max[1],
{
}

/// Each id of a palette is resolved at its own place, and one that names no block is not
/// solid.
pub proof fn law_palette_resolves_each_id(
    ids: Seq<AssetId>,
    blocks: Map<u32, BlockType>,
    palette: Seq<ChunkBlockType>,
    i: int,
)
    requires
        is_palette(ids, blocks, palette),
        0 <= i < ids.len(),
    ensures
        palette.len() == ids.len(),
        blocks.dom().contains(ids[i]) ==> palette[i].solid == blocks[ids[i]].solid,
        !blocks.dom().contains(ids[i]) ==> !palette[i].solid,
{
    let p = palette[i];
}

/// Chunks are drawn with the world's material where it is known, and otherwise with the
/// first texture on the flat normal map and the default scalars.
pub proof fn law_chunks_are_drawn_as_the_world_asks(
    material: Option<AssetId>,
    materials: Map<u32, MaterialEntry>,
    default_material: MaterialUniforms,
)
    ensures
        ({
            let look = chunk_look(material, materials, default_material);
            &&& material is Some && materials.dom().contains(material->0) ==> look
                == materials[material->0]
            &&& material is None || !materials.dom().contains(material->0) ==> look.texture_slot
                == 0 && look.normal_map_slot == 0 && look.uniforms == default_material
        }),
{
}

/// The blobs to probe are those that hold a payload, each once.
pub proof fn law_every_blob_is_probed_once(locators: Seq<PayloadLocator>, blob: u32)
    ensures
        first_uses(locators).no_duplicates(),
        first_uses(locators).contains(blob) <==> exists|i: int|
            0 <= i < locators.len() && (#[trigger] locators[i]).blob_index == blob,
    decreases locators.len(),
{
    if locators.len() > 0 {
        let head = locators.drop_last();
        law_every_blob_is_probed_once(head, blob);
        law_every_blob_is_probed_once(head, locators.last().blob_index);
        let before = first_uses(head);
        let now = first_uses(locators);
        assert forall|i: int| 0 <= i < head.len() implies #[trigger] head[i] == locators[i] by {}
        if before.contains(blob) {
            let c = choose|c: int| 0 <= c < before.len() && before[c] == blob;
            assert(now[c] == blob);
            let i = choose|i: int| 0 <= i < head.len() && (#[trigger] head[i]).blob_index == blob;
            assert(locators[i].blob_index == blob);
        }
        if locators.last().blob_index == blob {
            assert(locators[locators.len() - 1].blob_index == blob);
            if !before.contains(blob) {
                assert(now[now.len() - 1] == blob);
            }
        }
        if exists|i: int| 0 <= i < locators.len() && (#[trigger] locators[i]).blob_index == blob {
            let i = choose|i: int|
                0 <= i < locators.len() && (#[trigger] locators[i]).blob_index == blob;
            if i < head.len() {
                assert(head[i].blob_index == blob);
            }
        }
        if now.contains(blob) && !before.contains(blob) {
            let c = choose|c: int| 0 <= c < now.len() && now[c] == blob;
            assert(c == before.len());
        }
        if now.len() > before.len() {
            assert forall|a: int, b: int| 0 <= a < now.len() && 0 <= b < now.len() && a
                != b implies now[a] != now[b] by {
                if a < before.len() {
                    assert(before.contains(before[a]));
                }
                if b < before.len() {
                    assert(before.contains(before[b]));
                }
            }
        }
    }
}

/// A draw is given back exactly where a chunk that was resident with it is evicted.
pub proof fn law_evicted_draws_are_given_back(
    draws: Map<ChunkCoord, usize>,
    coords: Seq<ChunkCoord>,
    k: nat,
    draw: usize,
)
    requires
        k <= coords.len(),
    ensures
        evicted_draws(draws, coords, k).contains(draw) <==> exists|i: int|
            0 <= i < k && draws.dom().contains(#[trigger] coords[i]) && draws[coords[i]] == draw,
    decreases k,
{
    if k > 0 {
        law_evicted_draws_are_given_back(draws, coords, (k - 1) as nat, draw);
        let c = coords[k - 1];
        law_evict_removes_exactly(draws, coords, (k - 1) as nat, c);
        let head = coords.subrange(0, k - 1);
        let before = evicted_draws(draws, coords, (k - 1) as nat);
        let now = evicted_draws(draws, coords, k);
        if before.contains(draw) {
            let x = choose|x: int| 0 <= x < before.len() && before[x] == draw;
            assert(now[x] == draw);
        }
        if draws.dom().contains(c) && draws[c] == draw {
            if head.contains(c) {
                let x = choose|x: int| 0 <= x < head.len() && head[x] == c;
                assert(coords[x] == c);
            } else {
                assert(now[now.len() - 1] == draw);
            }
        }
        if now.contains(draw) && !before.contains(draw) {
            let x = choose|x: int| 0 <= x < now.len() && now[x] == draw;
            assert(x == before.len());
        }
    }
}

/// A chunk is placed at its distance from the render origin, on either axis, with its draw.
pub proof fn law_chunk_is_placed_from_the_origin(
    coord: ChunkCoord,
    origin: ChunkCoord,
    draw: usize,
)
    ensures
        origin.x + placed_at(coord, origin, draw).dx == coord.x,
        origin.z + placed_at(coord, origin, draw).dz == coord.z,
        placed_at(coord, origin, draw).draw == draw,
{
}

/// Payloads that are read from disk are counted by their locators, and others as they are.
pub proof fn law_pool_is_counted_by_what_it_keeps(locators: usize, payloads: usize)
    ensures
        pool_size(true, locators, payloads) == locators,
        pool_size(false, locators, payloads) == payloads,
{
}

/// A payload is read from disk where its blob's section starts, its own offset on, and as long
/// as it is.
pub proof fn law_payload_is_read_where_it_lies(
    l: PayloadLocator,
    starts: Map<u32, u64>,
    d: DiskTextureLocator,
)
    requires
        on_disk(l, starts, d),
    ensures
        starts.dom().contains(l.blob_index),
        d.blob_index == l.blob_index,
        d.file_offset - starts[l.blob_index] == l.offset,
        d.len == l.len,
{
}

} // verus!
