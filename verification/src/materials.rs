//! Resolving textures and materials to pool slots.
//!
//! Albedo textures take the slots of their declaration order. Normal maps take the
//! slots from one on in the order in which materials first refer to them; slot zero
//! is the flat fallback.

use crate::float_bits::{FloatBits, Vec3};
use crate::hot_reload_sources::{TextureKind, TextureSourceEntry, TextureSourceMap};
use crate::render_types::{MaterialEntry, MaterialUniforms};
use crate::streaming::PayloadLocator;
use crate::tables::{AssetId, lookup};
use std::collections::HashMap;
use vstd::prelude::*;

verus! {

/// A declared texture.
#[derive(Debug)]
pub struct Texture {
    pub asset_id: AssetId,
    pub locator: Option<PayloadLocator>,
    /// The generator of a procedural texture, or nothing.
    pub generator: String,
    /// The file of a file-backed texture, or nothing.
    pub source: String,
    pub image_index: u32,
}

/// A declared material.
#[derive(Debug, Clone, Copy)]
pub struct Material {
    pub asset_id: AssetId,
    pub albedo: Option<AssetId>,
    pub normal_map: Option<AssetId>,
    pub albedo_secondary: Option<AssetId>,
    pub normal_secondary: Option<AssetId>,
    pub emissive_map: Option<AssetId>,
    pub orm_map: Option<AssetId>,
    pub roughness: FloatBits,
    pub metallic: FloatBits,
    pub macro_variation: FloatBits,
    pub terrain_blend: FloatBits,
    pub tint: Vec3,
    pub emissive_factor: Vec3,
    pub secondary_blend_sharpness: FloatBits,
    pub opacity: FloatBits,
    pub transparent: bool,
    pub see_through: bool,
}

/// Which map of a material an error is about.
#[derive(Debug, Clone, Copy, PartialEq, Eq, Structural)]
pub enum MapKind {
    Albedo,
    NormalMap,
    AlbedoSecondary,
    NormalSecondary,
    EmissiveMap,
    OrmMap,
}

/// Why textures or materials cannot be resolved.
#[derive(Debug, Clone, Copy, PartialEq, Eq, Structural)]
pub enum MaterialError {
    /// A texture has no compiled payload.
    TextureWithoutPayload { texture: AssetId },
    /// A material refers to a texture that is not declared.
    UnknownTexture { material: AssetId, map: MapKind, texture: AssetId },
    /// A material's normal map has no compiled payload.
    MapWithoutPayload { material: AssetId, map: MapKind, texture: AssetId },
}

/// A file-backed texture: not generated, and with a source.
pub open spec fn file_backed(t: Texture) -> bool {
    t.generator@.len() == 0 && t.source@.len() > 0
}

fn is_file_backed(t: &Texture) -> (r: bool)
    ensures
        r == file_backed(*t),
{
    t.generator.as_str().unicode_len() == 0 && t.source.as_str().unicode_len() > 0
}

/// The slot of an albedo texture: its index; the last one of an id declared twice.
pub open spec fn albedo_slots(textures: Seq<Texture>, k: nat) -> Map<u32, usize>
    decreases k,
{
    if k == 0 {
        Map::empty()
    } else {
        albedo_slots(textures, (k - 1) as nat).insert(
            textures[k - 1].asset_id,
            (k - 1) as usize,
        )
    }
}

/// What is captured of a texture for reloading.
pub ghost struct Captured {
    pub texture: int,
    pub slot: usize,
    pub kind: TextureKind,
}

/// Whether an entry is what is captured of a texture.
pub open spec fn is_capture(textures: Seq<Texture>, c: Captured, e: TextureSourceEntry) -> bool {
    &&& e.source@ == textures[c.texture].source@
    &&& e.image_index == textures[c.texture].image_index
    &&& e.slot == c.slot
    &&& e.kind == c.kind
}

/// Whether a catalogue holds what was captured, in order.
pub open spec fn are_captures(
    textures: Seq<Texture>,
    captured: Seq<Captured>,
    entries: Seq<TextureSourceEntry>,
) -> bool {
    &&& entries.len() == captured.len()
    &&& forall|i: int|
        0 <= i < captured.len() ==> is_capture(textures, captured[i], #[trigger] entries[i])
}

/// The albedo textures captured among the first `k`.
pub open spec fn albedo_captures(textures: Seq<Texture>, k: nat) -> Seq<Captured>
    decreases k,
{
    if k == 0 {
        Seq::empty()
    } else {
        let before = albedo_captures(textures, (k - 1) as nat);
        if file_backed(textures[k - 1]) {
            before.push(
                Captured { texture: k - 1, slot: (k - 1) as usize, kind: TextureKind::Albedo },
            )
        } else {
            before
        }
    }
}

/// The first texture without a payload.
pub open spec fn first_unbuilt(textures: Seq<Texture>, i: int) -> bool {
    &&& 0 <= i < textures.len()
    &&& textures[i].locator is None
    &&& forall|j: int| 0 <= j < i ==> (#[trigger] textures[j]).locator is Some
}

/// The albedo pool.
#[derive(Debug)]
pub struct AlbedoPool {
    pub slots: HashMap<u32, usize>,
    pub locators: Vec<PayloadLocator>,
    pub sources: TextureSourceMap,
}

/// Assign the albedo slots. Fails on the first texture without a compiled payload.
pub fn assign_albedo_slots(textures: &Vec<Texture>, capture_sources: bool) -> (r: Result<
    AlbedoPool,
    MaterialError,
>)
    ensures
        match r {
            Ok(pool) => {
                &&& pool.locators@.len() == textures@.len()
                &&& forall|i: int|
                    0 <= i < textures@.len() ==> (#[trigger] textures@[i]).locator == Some(
                        pool.locators@[i],
                    )
                &&& pool.slots@ == albedo_slots(textures@, textures@.len())
                &&& are_captures(
                    textures@,
                    if capture_sources {
                        albedo_captures(textures@, textures@.len())
                    } else {
                        Seq::empty()
                    },
                    pool.sources.entries@,
                )
            },
            Err(e) => exists|i: int| #[trigger]
                first_unbuilt(textures@, i) && e == (MaterialError::TextureWithoutPayload {
                    texture: textures@[i].asset_id,
                }),
        },
{
    let mut slots: HashMap<u32, usize> = HashMap::new();
    let mut locators: Vec<PayloadLocator> = Vec::new();
    let mut sources: TextureSourceMap = TextureSourceMap::new();
    let mut i: usize = 0;
    proof {
        broadcast use vstd::std_specs::hash::group_hash_axioms;

        assert(slots@ =~= albedo_slots(textures@, 0));
    }
    while i < textures.len()
        invariant
            i <= textures@.len(),
            locators@.len() == i,
            forall|k: int|
                0 <= k < i ==> (#[trigger] textures@[k]).locator == Some(locators@[k]),
            slots@ == albedo_slots(textures@, i as nat),
            are_captures(
                textures@,
                if capture_sources {
                    albedo_captures(textures@, i as nat)
                } else {
                    Seq::empty()
                },
                sources.entries@,
            ),
        decreases textures@.len() - i,
    {
        broadcast use vstd::std_specs::hash::group_hash_axioms;

        let tex: &Texture = &textures[i];
        match tex.locator {
            None => {
                assert(first_unbuilt(textures@, i as int));
                return Err(MaterialError::TextureWithoutPayload { texture: tex.asset_id });
            },
            Some(l) => {
                slots.insert(tex.asset_id, i);
                locators.push(l);
                let ghost was = sources.entries@;
                if capture_sources && is_file_backed(tex) {
                    let source: String = tex.source.clone();
                    sources.push_albedo(source, tex.image_index, i);
                }
                proof {
                    let caps = if capture_sources {
                        albedo_captures(textures@, (i + 1) as nat)
                    } else {
                        Seq::empty()
                    };
                    assert forall|k: int| 0 <= k < caps.len() implies is_capture(
                        textures@,
                        caps[k],
                        #[trigger] sources.entries@[k],
                    ) by {
                        if k < was.len() {
                            assert(sources.entries@[k] == was[k]);
                        }
                    }
                }
            },
        }
        i = i + 1;
    }
    Ok(AlbedoPool { slots, locators, sources })
}

/// The normal-map pool as materials are resolved.
pub ghost struct NormalView {
    pub slots: Map<u32, usize>,
    pub locators: Seq<PayloadLocator>,
    pub captured: Seq<Captured>,
}

/// The first texture with an id.
pub open spec fn first_texture(textures: Seq<Texture>, id: AssetId) -> Option<int> {
    if exists|i: int| is_first_texture(textures, id, i) {
        Some(choose|i: int| is_first_texture(textures, id, i))
    } else {
        None
    }
}

/// Index `i` holds the first texture with an id.
pub open spec fn is_first_texture(textures: Seq<Texture>, id: AssetId, i: int) -> bool {
    &&& 0 <= i < textures.len()
    &&& textures[i].asset_id == id
    &&& forall|j: int| 0 <= j < i ==> (#[trigger] textures[j]).asset_id != id
}

/// Claim the slot of a normal map: the one it has, or the next one. `Err(false)` is
/// an unknown texture, `Err(true)` one without a payload.
pub open spec fn claim(
    textures: Seq<Texture>,
    capture: bool,
    pool: NormalView,
    id: Option<AssetId>,
) -> Result<(usize, NormalView), bool> {
    match id {
        None => Ok((0, pool)),
        Some(id) => if pool.slots.dom().contains(id) {
            Ok((pool.slots[id], pool))
        } else {
            match first_texture(textures, id) {
                None => Err(false),
                Some(t) => match textures[t].locator {
                    None => Err(true),
                    Some(l) => {
                        let slot = (pool.locators.len() + 1) as usize;
                        Ok(
                            (
                                slot,
                                NormalView {
                                    slots: pool.slots.insert(id, slot),
                                    locators: pool.locators.push(l),
                                    captured: if capture && file_backed(textures[t]) {
                                        pool.captured.push(
                                            Captured {
                                                texture: t,
                                                slot,
                                                kind: TextureKind::NormalMap,
                                            },
                                        )
                                    } else {
                                        pool.captured
                                    },
                                },
                            ),
                        )
                    },
                },
            }
        },
    }
}

/// The albedo-pool slot of a map; an unset map is slot zero.
pub open spec fn albedo_slot(slots: Map<u32, usize>, id: Option<AssetId>) -> Option<usize> {
    match id {
        None => Some(0),
        Some(id) => if slots.dom().contains(id) {
            Some(slots[id])
        } else {
            None
        },
    }
}

/// The error of a normal map that cannot be claimed.
pub open spec fn claim_error(
    material: AssetId,
    map: MapKind,
    texture: AssetId,
    unbuilt: bool,
) -> MaterialError {
    if unbuilt {
        MaterialError::MapWithoutPayload { material, map, texture }
    } else {
        MaterialError::UnknownTexture { material, map, texture }
    }
}

/// One for true, zero for false.
pub open spec fn flag(b: bool) -> u32 {
    if b {
        1
    } else {
        0
    }
}

/// What a material resolves to, with the normal-map pool before and after. Its maps
/// are looked up in a fixed order, so the first that is missing is the error.
pub open spec fn resolve(
    textures: Seq<Texture>,
    capture: bool,
    slots: Map<u32, usize>,
    pool: NormalView,
    mat: Material,
) -> Result<(MaterialEntry, NormalView), MaterialError> {
    let id = mat.asset_id;
    match albedo_slot(slots, mat.albedo) {
        None => Err(
            MaterialError::UnknownTexture {
                material: id,
                map: MapKind::Albedo,
                texture: mat.albedo->0,
            },
        ),
        Some(albedo) => match claim(textures, capture, pool, mat.normal_map) {
            Err(u) => Err(claim_error(id, MapKind::NormalMap, mat.normal_map->0, u)),
            Ok((normal, pool1)) => match albedo_slot(slots, mat.albedo_secondary) {
                None => Err(
                    MaterialError::UnknownTexture {
                        material: id,
                        map: MapKind::AlbedoSecondary,
                        texture: mat.albedo_secondary->0,
                    },
                ),
                Some(albedo2) => match claim(textures, capture, pool1, mat.normal_secondary) {
                    Err(u) => Err(
                        claim_error(id, MapKind::NormalSecondary, mat.normal_secondary->0, u),
                    ),
                    Ok((normal2, pool2)) => match albedo_slot(slots, mat.emissive_map) {
                        None => Err(
                            MaterialError::UnknownTexture {
                                material: id,
                                map: MapKind::EmissiveMap,
                                texture: mat.emissive_map->0,
                            },
                        ),
                        Some(emissive) => match albedo_slot(slots, mat.orm_map) {
                            None => Err(
                                MaterialError::UnknownTexture {
                                    material: id,
                                    map: MapKind::OrmMap,
                                    texture: mat.orm_map->0,
                                },
                            ),
                            Some(orm) => Ok(
                                (
                                    MaterialEntry {
                                        texture_slot: albedo,
                                        normal_map_slot: normal,
                                        uniforms: MaterialUniforms {
                                            roughness: mat.roughness,
                                            metallic: mat.metallic,
                                            macro_variation: mat.macro_variation,
                                            terrain_blend: mat.terrain_blend,
                                            tint: mat.tint,
                                            emissive: mat.emissive_factor,
                                            secondary_blend_sharpness:
                                                mat.secondary_blend_sharpness,
                                            albedo_secondary_index: albedo2 as u32,
                                            normal_secondary_index: normal2 as u32,
                                            emissive_map_index: emissive as u32,
                                            orm_map_index: orm as u32,
                                            opacity: mat.opacity,
                                            transparent: flag(mat.transparent),
                                            see_through: flag(mat.see_through),
                                        },
                                    },
                                    pool2,
                                ),
                            ),
                        },
                    },
                },
            },
        },
    }
}

/// The materials and the normal-map pool after the first `k` materials, or the first
/// error.
pub open spec fn resolved(
    textures: Seq<Texture>,
    capture: bool,
    slots: Map<u32, usize>,
    materials: Seq<Material>,
    k: nat,
) -> Result<(Map<u32, MaterialEntry>, NormalView), MaterialError>
    decreases k,
{
    if k == 0 {
        Ok(
            (
                Map::empty(),
                NormalView {
                    slots: Map::empty(),
                    locators: Seq::empty(),
                    captured: Seq::empty(),
                },
            ),
        )
    } else {
        match resolved(textures, capture, slots, materials, (k - 1) as nat) {
            Err(e) => Err(e),
            Ok((map, pool)) => match resolve(textures, capture, slots, pool, materials[k - 1]) {
                Err(e) => Err(e),
                Ok((entry, next)) => Ok((map.insert(materials[k - 1].asset_id, entry), next)),
            },
        }
    }
}

/// The normal-map pool.
#[derive(Debug)]
pub struct NormalPool {
    pub slots: HashMap<u32, usize>,
    pub locators: Vec<PayloadLocator>,
    pub sources: TextureSourceMap,
}

impl NormalPool {
    /// Whether the pool is the one a view describes.
    pub open spec fn is(&self, textures: Seq<Texture>, view: NormalView) -> bool {
        &&& self.slots@ == view.slots
        &&& self.locators@ == view.locators
        &&& are_captures(textures, view.captured, self.sources.entries@)
    }

    /// Claim the slot of a normal map.
    fn take_slot(
        &mut self,
        textures: &Vec<Texture>,
        capture_sources: bool,
        id: Option<AssetId>,
        Ghost(view): Ghost<NormalView>,
    ) -> (r: Result<usize, bool>)
        requires
            old(self).is(textures@, view),
            old(self).locators@.len() < usize::MAX,
        ensures
            match claim(textures@, capture_sources, view, id) {
                Ok((slot, next)) => r == Ok::<usize, bool>(slot) && final(self).is(
                    textures@,
                    next,
                ) && final(self).locators@.len() <= old(self).locators@.len() + 1,
                Err(e) => r == Err::<usize, bool>(e),
            },
    {
        broadcast use vstd::std_specs::hash::group_hash_axioms;

        let wanted: AssetId = match id {
            None => {
                return Ok(0);
            },
            Some(id) => id,
        };
        match lookup(&self.slots, wanted) {
            Some(slot) => {
                return Ok(*slot);
            },
            None => {},
        }
        let mut i: usize = 0;
        while i < textures.len()
            invariant
                i <= textures@.len(),
                self.is(textures@, view),
                *self == *old(self),
                id == Some(wanted),
                !view.slots.dom().contains(wanted),
                old(self).locators@.len() < usize::MAX,
                forall|j: int| 0 <= j < i ==> (#[trigger] textures@[j]).asset_id != wanted,
            decreases textures@.len() - i,
        {
            broadcast use vstd::std_specs::hash::group_hash_axioms;

            let tex: &Texture = &textures[i];
            if tex.asset_id == wanted {
                proof {
                    assert(is_first_texture(textures@, wanted, i as int));
                    lemma_first_texture_unique(textures@, wanted, i as int);
                }
                match tex.locator {
                    None => {
                        return Err(true);
                    },
                    Some(l) => {
                        let slot: usize = self.locators.len() + 1;
                        let ghost was = self.sources.entries@;
                        self.slots.insert(wanted, slot);
                        self.locators.push(l);
                        if capture_sources && is_file_backed(tex) {
                            let source: String = tex.source.clone();
                            self.sources.push_normal_map(source, tex.image_index, slot);
                        }
                        proof {
                            let next = claim(textures@, capture_sources, view, id)->Ok_0.1;
                            assert forall|k: int| 0 <= k < next.captured.len() implies is_capture(
                                textures@,
                                next.captured[k],
                                #[trigger] self.sources.entries@[k],
                            ) by {
                                if k < was.len() {
                                    assert(self.sources.entries@[k] == was[k]);
                                }
                            }
                        }
                        return Ok(slot);
                    },
                }
            }
            i = i + 1;
        }
        proof {
            assert(first_texture(textures@, wanted) is None) by {
                if exists|i: int| is_first_texture(textures@, wanted, i) {
                    let t = choose|i: int| is_first_texture(textures@, wanted, i);
                    assert(textures@[t].asset_id == wanted);
                }
            }
        }
        Err(false)
    }
}

proof fn lemma_first_texture_unique(textures: Seq<Texture>, id: AssetId, i: int)
    requires
        is_first_texture(textures, id, i),
    ensures
        first_texture(textures, id) == Some(i),
{
    let t = choose|t: int| is_first_texture(textures, id, t);
    if t < i {
        assert(textures[t].asset_id != id);
    }
    if i < t {
        assert(textures[i].asset_id != id);
    }
}

fn find_albedo(slots: &HashMap<u32, usize>, id: Option<AssetId>) -> (r: Option<usize>)
    ensures
        r == albedo_slot(slots@, id),
{
    match id {
        None => Some(0),
        Some(id) => match lookup(slots, id) {
            Some(slot) => Some(*slot),
            None => None,
        },
    }
}

fn bit(b: bool) -> (r: u32)
    ensures
        r == flag(b),
{
    if b {
        1
    } else {
        0
    }
}

/// Resolve one material.
fn resolve_material(
    textures: &Vec<Texture>,
    capture_sources: bool,
    slots: &HashMap<u32, usize>,
    pool: &mut NormalPool,
    mat: &Material,
    Ghost(view): Ghost<NormalView>,
) -> (r: Result<MaterialEntry, MaterialError>)
    requires
        old(pool).is(textures@, view),
        old(pool).locators@.len() + 1 < usize::MAX,
    ensures
        match resolve(textures@, capture_sources, slots@, view, *mat) {
            Ok((entry, next)) => r == Ok::<MaterialEntry, MaterialError>(entry) && final(pool).is(
                textures@,
                next,
            ) && final(pool).locators@.len() <= old(pool).locators@.len() + 2,
            Err(e) => r == Err::<MaterialEntry, MaterialError>(e),
        },
{
    let id: AssetId = mat.asset_id;
    let albedo: usize = match find_albedo(slots, mat.albedo) {
        Some(s) => s,
        None => {
            let texture: AssetId = mat.albedo.unwrap();
            return Err(
                MaterialError::UnknownTexture { material: id, map: MapKind::Albedo, texture },
            );
        },
    };
    let normal: usize = match pool.take_slot(
        textures,
        capture_sources,
        mat.normal_map,
        Ghost(view),
    ) {
        Ok(s) => s,
        Err(u) => {
            let texture: AssetId = mat.normal_map.unwrap();
            return Err(map_error(id, MapKind::NormalMap, texture, u));
        },
    };
    let ghost pool1 = claim(textures@, capture_sources, view, mat.normal_map)->Ok_0.1;
    let albedo2: usize = match find_albedo(slots, mat.albedo_secondary) {
        Some(s) => s,
        None => {
            let texture: AssetId = mat.albedo_secondary.unwrap();
            return Err(
                MaterialError::UnknownTexture {
                    material: id,
                    map: MapKind::AlbedoSecondary,
                    texture,
                },
            );
        },
    };
    let normal2: usize = match pool.take_slot(
        textures,
        capture_sources,
        mat.normal_secondary,
        Ghost(pool1),
    ) {
        Ok(s) => s,
        Err(u) => {
            let texture: AssetId = mat.normal_secondary.unwrap();
            return Err(map_error(id, MapKind::NormalSecondary, texture, u));
        },
    };
    let emissive: usize = match find_albedo(slots, mat.emissive_map) {
        Some(s) => s,
        None => {
            let texture: AssetId = mat.emissive_map.unwrap();
            return Err(
                MaterialError::UnknownTexture { material: id, map: MapKind::EmissiveMap, texture },
            );
        },
    };
    let orm: usize = match find_albedo(slots, mat.orm_map) {
        Some(s) => s,
        None => {
            let texture: AssetId = mat.orm_map.unwrap();
            return Err(
                MaterialError::UnknownTexture { material: id, map: MapKind::OrmMap, texture },
            );
        },
    };
    Ok(
        MaterialEntry {
            texture_slot: albedo,
            normal_map_slot: normal,
            uniforms: MaterialUniforms {
                roughness: mat.roughness,
                metallic: mat.metallic,
                macro_variation: mat.macro_variation,
                terrain_blend: mat.terrain_blend,
                tint: mat.tint,
                emissive: mat.emissive_factor,
                secondary_blend_sharpness: mat.secondary_blend_sharpness,
                albedo_secondary_index: albedo2 as u32,
                normal_secondary_index: normal2 as u32,
                emissive_map_index: emissive as u32,
                orm_map_index: orm as u32,
                opacity: mat.opacity,
                transparent: bit(mat.transparent),
                see_through: bit(mat.see_through),
            },
        },
    )
}

fn map_error(material: AssetId, map: MapKind, texture: AssetId, unbuilt: bool) -> (r: MaterialError)
    ensures
        r == claim_error(material, map, texture, unbuilt),
{
    if unbuilt {
        MaterialError::MapWithoutPayload { material, map, texture }
    } else {
        MaterialError::UnknownTexture { material, map, texture }
    }
}

/// The resolved materials and the normal maps they use.
#[derive(Debug)]
pub struct MaterialTable {
    pub materials: HashMap<u32, MaterialEntry>,
    pub normals: NormalPool,
}

proof fn lemma_resolved_error(
    textures: Seq<Texture>,
    capture: bool,
    slots: Map<u32, usize>,
    materials: Seq<Material>,
    j: nat,
    n: nat,
)
    requires
        j <= n,
        resolved(textures, capture, slots, materials, j) is Err,
    ensures
        resolved(textures, capture, slots, materials, n) == resolved(
            textures,
            capture,
            slots,
            materials,
            j,
        ),
    decreases n - j,
{
    if j < n {
        lemma_resolved_error(textures, capture, slots, materials, j, (n - 1) as nat);
    }
}

/// Resolve every material in order. Fails on the first map that is missing.
pub fn resolve_materials(
    textures: &Vec<Texture>,
    capture_sources: bool,
    slots: &HashMap<u32, usize>,
    materials: &Vec<Material>,
) -> (r: Result<MaterialTable, MaterialError>)
    requires
        2 * materials@.len() + 1 < usize::MAX,
    ensures
        match resolved(textures@, capture_sources, slots@, materials@, materials@.len()) {
            Ok((map, view)) => r is Ok && r->Ok_0.materials@ == map && r->Ok_0.normals.is(
                textures@,
                view,
            ),
            Err(e) => r == Err::<MaterialTable, MaterialError>(e),
        },
{
    let mut map: HashMap<u32, MaterialEntry> = HashMap::new();
    let mut pool = NormalPool {
        slots: HashMap::new(),
        locators: Vec::new(),
        sources: TextureSourceMap::new(),
    };
    let ghost mut view = NormalView {
        slots: Map::empty(),
        locators: Seq::empty(),
        captured: Seq::empty(),
    };
    proof {
        broadcast use vstd::std_specs::hash::group_hash_axioms;

        assert(map@ =~= Map::empty());
        assert(pool.slots@ =~= Map::empty());
    }
    let mut i: usize = 0;
    while i < materials.len()
        invariant
            i <= materials@.len(),
            2 * materials@.len() + 1 < usize::MAX,
            pool.locators@.len() <= 2 * i,
            pool.is(textures@, view),
            resolved(textures@, capture_sources, slots@, materials@, i as nat) == Ok::<
                (Map<u32, MaterialEntry>, NormalView),
                MaterialError,
            >((map@, view)),
        decreases materials@.len() - i,
    {
        broadcast use vstd::std_specs::hash::group_hash_axioms;

        let mat: &Material = &materials[i];
        match resolve_material(textures, capture_sources, slots, &mut pool, mat, Ghost(view)) {
            Err(e) => {
                proof {
                    lemma_resolved_error(
                        textures@,
                        capture_sources,
                        slots@,
                        materials@,
                        (i + 1) as nat,
                        materials@.len(),
                    );
                }
                return Err(e);
            },
            Ok(entry) => {
                proof {
                    view = resolve(textures@, capture_sources, slots@, view, *mat)->Ok_0.1;
                }
                map.insert(mat.asset_id, entry);
            },
        }
        i = i + 1;
    }
    Ok(MaterialTable { materials: map, normals: pool })
}

/// A normal-map pool is consistent: its slots are the numbers from one to the number
/// of maps, no two maps share one, and each slot has the payload of its texture.
pub open spec fn consistent(textures: Seq<Texture>, pool: NormalView) -> bool {
    &&& forall|id: u32|
        #[trigger] pool.slots.dom().contains(id) ==> {
            &&& 1 <= pool.slots[id] <= pool.locators.len()
            &&& first_texture(textures, id) is Some
            &&& textures[first_texture(textures, id)->0].locator == Some(
                pool.locators[pool.slots[id] - 1],
            )
        }
    &&& forall|a: u32, b: u32|
        #![trigger pool.slots.dom().contains(a), pool.slots.dom().contains(b)]
        pool.slots.dom().contains(a) && pool.slots.dom().contains(b) && pool.slots[a]
            == pool.slots[b] ==> a == b
}

/// Claiming a slot keeps the pool consistent, and gives no map the fallback slot.
proof fn lemma_claim_consistent(
    textures: Seq<Texture>,
    capture: bool,
    pool: NormalView,
    id: Option<AssetId>,
)
    requires
        consistent(textures, pool),
        pool.locators.len() < usize::MAX,
        claim(textures, capture, pool, id) is Ok,
    ensures
        consistent(textures, claim(textures, capture, pool, id)->Ok_0.1),
        claim(textures, capture, pool, id)->Ok_0.1.locators.len() <= pool.locators.len() + 1,
        id is Some ==> claim(textures, capture, pool, id)->Ok_0.0 >= 1,
{
    if id is Some && !pool.slots.dom().contains(id->0) {
        let next = claim(textures, capture, pool, id)->Ok_0.1;
        assert forall|k: u32| #[trigger] next.slots.dom().contains(k) implies {
            &&& 1 <= next.slots[k] <= next.locators.len()
            &&& first_texture(textures, k) is Some
            &&& textures[first_texture(textures, k)->0].locator == Some(
                next.locators[next.slots[k] - 1],
            )
        } by {
            if k != id->0 {
                assert(pool.slots.dom().contains(k));
            }
        }
        assert forall|a: u32, b: u32|
            #![trigger next.slots.dom().contains(a), next.slots.dom().contains(b)]
            next.slots.dom().contains(a) && next.slots.dom().contains(b) && next.slots[a]
                == next.slots[b] implies a == b by {
            if a != id->0 {
                assert(pool.slots.dom().contains(a));
            }
            if b != id->0 {
                assert(pool.slots.dom().contains(b));
            }
        }
    }
}

/// Whatever the materials are, each normal map gets one slot of its own, never the
/// fallback slot, and the slot holds that map's payload.
pub proof fn law_normal_slots_consistent(
    textures: Seq<Texture>,
    capture: bool,
    slots: Map<u32, usize>,
    materials: Seq<Material>,
    k: nat,
)
    requires
        k <= materials.len(),
        2 * k < usize::MAX,
        resolved(textures, capture, slots, materials, k) is Ok,
    ensures
        consistent(textures, resolved(textures, capture, slots, materials, k)->Ok_0.1),
        resolved(textures, capture, slots, materials, k)->Ok_0.1.locators.len() <= 2 * k,
    decreases k,
{
    if k > 0 {
        law_normal_slots_consistent(textures, capture, slots, materials, (k - 1) as nat);
        let pool = resolved(textures, capture, slots, materials, (k - 1) as nat)->Ok_0.1;
        let mat = materials[k - 1];
        lemma_claim_consistent(textures, capture, pool, mat.normal_map);
        let pool1 = claim(textures, capture, pool, mat.normal_map)->Ok_0.1;
        lemma_claim_consistent(textures, capture, pool1, mat.normal_secondary);
    }
}

/// The slot of a texture is that of a texture with its id.
pub proof fn law_albedo_slot_is_of_texture(textures: Seq<Texture>, k: nat, id: AssetId)
    requires
        k <= textures.len() <= usize::MAX,
        albedo_slots(textures, k).dom().contains(id),
    ensures
        albedo_slots(textures, k)[id] < k,
        textures[albedo_slots(textures, k)[id] as int].asset_id == id,
    decreases k,
{
    if k > 0 && textures[k - 1].asset_id != id {
        law_albedo_slot_is_of_texture(textures, (k - 1) as nat, id);
    }
}

/// Whether a map of a material can be found: it is not set, or it has a slot.
pub open spec fn known(slots: Map<u32, usize>, map: Option<AssetId>) -> bool {
    map is Some ==> slots.dom().contains(map->0)
}

/// A material is drawn with its own maps and numbers: each of its six maps in the slot of
/// the texture it names, the two normal maps in the pool of normal maps and the others among
/// the declared textures, an unset map in slot zero, and each number as it was declared.
pub proof fn law_material_keeps_its_maps(
    textures: Seq<Texture>,
    capture: bool,
    slots: Map<u32, usize>,
    pool: NormalView,
    mat: Material,
)
    requires
        resolve(textures, capture, slots, pool, mat) is Ok,
    ensures
        ({
            let (entry, next) = resolve(textures, capture, slots, pool, mat)->Ok_0;
            let u = entry.uniforms;
            &&& mat.albedo matches Some(a) ==> slots.dom().contains(a) && entry.texture_slot
                == slots[a]
            &&& mat.albedo is None ==> entry.texture_slot == 0
            &&& mat.normal_map matches Some(n) ==> next.slots.dom().contains(n)
                && entry.normal_map_slot == next.slots[n]
            &&& mat.normal_map is None ==> entry.normal_map_slot == 0
            &&& mat.albedo_secondary matches Some(a) ==> slots.dom().contains(a)
                && u.albedo_secondary_index == slots[a] as u32
            &&& mat.albedo_secondary is None ==> u.albedo_secondary_index == 0
            &&& mat.normal_secondary matches Some(n) ==> next.slots.dom().contains(n)
                && u.normal_secondary_index == next.slots[n] as u32
            &&& mat.normal_secondary is None ==> u.normal_secondary_index == 0
            &&& mat.emissive_map matches Some(a) ==> slots.dom().contains(a)
                && u.emissive_map_index == slots[a] as u32
            &&& mat.emissive_map is None ==> u.emissive_map_index == 0
            &&& mat.orm_map matches Some(a) ==> slots.dom().contains(a) && u.orm_map_index
                == slots[a] as u32
            &&& mat.orm_map is None ==> u.orm_map_index == 0
            &&& u.roughness == mat.roughness
            &&& u.metallic == mat.metallic
            &&& u.macro_variation == mat.macro_variation
            &&& u.terrain_blend == mat.terrain_blend
            &&& u.tint == mat.tint
            &&& u.emissive == mat.emissive_factor
            &&& u.secondary_blend_sharpness == mat.secondary_blend_sharpness
            &&& u.opacity == mat.opacity
            &&& u.transparent == 1 <==> mat.transparent
            &&& u.transparent == 0 <==> !mat.transparent
            &&& u.see_through == 1 <==> mat.see_through
            &&& u.see_through == 0 <==> !mat.see_through
        }),
{
}

/// Resolving a material takes no normal map its slot away, and gives one only to the
/// normal maps that the material names.
pub proof fn law_normal_slots_are_kept(
    textures: Seq<Texture>,
    capture: bool,
    slots: Map<u32, usize>,
    pool: NormalView,
    mat: Material,
    id: u32,
)
    requires
        resolve(textures, capture, slots, pool, mat) is Ok,
    ensures
        ({
            let next = resolve(textures, capture, slots, pool, mat)->Ok_0.1;
            &&& pool.slots.dom().contains(id) ==> next.slots.dom().contains(id) && next.slots[id]
                == pool.slots[id]
            &&& next.slots.dom().contains(id) ==> pool.slots.dom().contains(id) || mat.normal_map
                == Some(id) || mat.normal_secondary == Some(id)
        }),
{
}

/// A material resolves exactly where each of its maps can be found: an albedo, emissive or
/// packed map among the declared textures, and a normal map with a payload of its own.
pub proof fn law_material_resolves_where_its_maps_are(
    textures: Seq<Texture>,
    capture: bool,
    slots: Map<u32, usize>,
    pool: NormalView,
    mat: Material,
)
    requires
        consistent(textures, pool),
    ensures
        resolve(textures, capture, slots, pool, mat) is Ok <==> {
            &&& known(slots, mat.albedo)
            &&& known(slots, mat.albedo_secondary)
            &&& known(slots, mat.emissive_map)
            &&& known(slots, mat.orm_map)
            &&& has_payload(textures, mat.normal_map)
            &&& has_payload(textures, mat.normal_secondary)
        },
{
    if claim(textures, capture, pool, mat.normal_map) is Ok {
        assert(mat.normal_map is Some && pool.slots.dom().contains(mat.normal_map->0)
            ==> first_texture(textures, mat.normal_map->0) is Some);
        assert(mat.normal_secondary is Some && pool.slots.dom().contains(mat.normal_secondary->0)
            ==> first_texture(textures, mat.normal_secondary->0) is Some);
    }
}

/// A normal map that is not set, or whose first texture has a payload.
pub open spec fn has_payload(textures: Seq<Texture>, map: Option<AssetId>) -> bool {
    map matches Some(id) ==> first_texture(textures, id) is Some && textures[first_texture(
        textures,
        id,
    )->0].locator is Some
}

/// The map of a material that an error names.
pub open spec fn map_named(mat: Material, map: MapKind) -> Option<AssetId> {
    match map {
        MapKind::Albedo => mat.albedo,
        MapKind::NormalMap => mat.normal_map,
        MapKind::AlbedoSecondary => mat.albedo_secondary,
        MapKind::NormalSecondary => mat.normal_secondary,
        MapKind::EmissiveMap => mat.emissive_map,
        MapKind::OrmMap => mat.orm_map,
    }
}

/// An error names the material, a map of it and the texture of that map, and is true of
/// them: an unknown texture is not declared, and one without a payload is a normal map whose
/// texture has none.
#[verifier::spinoff_prover]
pub proof fn law_material_error_is_true(
    textures: Seq<Texture>,
    capture: bool,
    slots: Map<u32, usize>,
    pool: NormalView,
    mat: Material,
)
    requires
        resolve(textures, capture, slots, pool, mat) is Err,
    ensures
        match resolve(textures, capture, slots, pool, mat)->Err_0 {
            MaterialError::UnknownTexture { material, map, texture } => {
                &&& material == mat.asset_id
                &&& map_named(mat, map) == Some(texture)
                &&& if map == MapKind::NormalMap || map == MapKind::NormalSecondary {
                    forall|i: int|
                        0 <= i < textures.len() ==> (#[trigger] textures[i]).asset_id != texture
                } else {
                    !slots.dom().contains(texture)
                }
            },
            MaterialError::MapWithoutPayload { material, map, texture } => {
                &&& material == mat.asset_id
                &&& map_named(mat, map) == Some(texture)
                &&& map == MapKind::NormalMap || map == MapKind::NormalSecondary
                &&& exists|i: int| #[trigger]
                    is_first_texture(textures, texture, i) && textures[i].locator is None
            },
            MaterialError::TextureWithoutPayload { texture } => false,
        },
{
    let e = resolve(textures, capture, slots, pool, mat)->Err_0;
    let id = mat.asset_id;
    lemma_claim_fails(textures, capture, pool, mat.normal_map);
    if albedo_slot(slots, mat.albedo) is Some {
        match claim(textures, capture, pool, mat.normal_map) {
            Err(unbuilt) => {
                assert(e == claim_error(id, MapKind::NormalMap, mat.normal_map->0, unbuilt));
            },
            Ok((_, pool1)) => {
                lemma_claim_fails(textures, capture, pool1, mat.normal_secondary);
                if albedo_slot(slots, mat.albedo_secondary) is Some {
                    match claim(textures, capture, pool1, mat.normal_secondary) {
                        Err(unbuilt) => {
                            assert(e == claim_error(
                                id,
                                MapKind::NormalSecondary,
                                mat.normal_secondary->0,
                                unbuilt,
                            ));
                        },
                        Ok(_) => {},
                    }
                }
            },
        }
    }
    match e {
        MaterialError::UnknownTexture { material, map, texture } => {
            assert(map_named(mat, map) == Some(texture));
            assert(map == MapKind::NormalMap || map == MapKind::NormalSecondary ==> forall|i: int|
                0 <= i < textures.len() ==> (#[trigger] textures[i]).asset_id != texture);
        },
        MaterialError::MapWithoutPayload { material, map, texture } => {
            assert(map_named(mat, map) == Some(texture));
            assert(exists|i: int| #[trigger]
                is_first_texture(textures, texture, i) && textures[i].locator is None);
        },
        MaterialError::TextureWithoutPayload { texture } => {},
    }
}

/// A normal map that cannot be claimed is not declared, or its texture has no payload.
proof fn lemma_claim_fails(
    textures: Seq<Texture>,
    capture: bool,
    pool: NormalView,
    id: Option<AssetId>,
)
    ensures
        claim(textures, capture, pool, id) matches Err(unbuilt) ==> {
            &&& id is Some
            &&& if unbuilt {
                exists|i: int| #[trigger]
                    is_first_texture(textures, id->0, i) && textures[i].locator is None
            } else {
                forall|i: int|
                    0 <= i < textures.len() ==> (#[trigger] textures[i]).asset_id != id->0
            }
        },
{
    if claim(textures, capture, pool, id) is Err {
        if claim(textures, capture, pool, id)->Err_0 {
            let i = first_texture(textures, id->0)->0;
            assert(is_first_texture(textures, id->0, i) && textures[i].locator is None);
        } else {
            assert forall|i: int| 0 <= i < textures.len() implies (
            #[trigger] textures[i]).asset_id != id->0 by {
                if textures[i].asset_id == id->0 {
                    lemma_some_first_texture(textures, id->0, i);
                }
            }
        }
    }
}

/// Where a texture has an id, one of them is the first.
proof fn lemma_some_first_texture(textures: Seq<Texture>, id: AssetId, i: int)
    requires
        0 <= i < textures.len(),
        textures[i].asset_id == id,
    ensures
        first_texture(textures, id) is Some,
    decreases i,
{
    if exists|j: int| 0 <= j < i && (#[trigger] textures[j]).asset_id == id {
        let j = choose|j: int| 0 <= j < i && (#[trigger] textures[j]).asset_id == id;
        lemma_some_first_texture(textures, id, j);
    } else {
        assert(is_first_texture(textures, id, i));
    }
}

/// Every material is found under its id, the last one of an id declared twice, as it was
/// resolved; and what failed is the first material that does not resolve.
pub proof fn law_each_material_is_found(
    textures: Seq<Texture>,
    capture: bool,
    slots: Map<u32, usize>,
    materials: Seq<Material>,
    k: nat,
    j: int,
)
    requires
        0 <= j < k <= materials.len(),
        resolved(textures, capture, slots, materials, k) is Ok,
        forall|i: int| j < i < k ==> (#[trigger] materials[i]).asset_id != materials[j].asset_id,
    ensures
        ({
            let map = resolved(textures, capture, slots, materials, k)->Ok_0.0;
            let before = resolved(textures, capture, slots, materials, j as nat);
            &&& before is Ok
            &&& resolve(textures, capture, slots, before->Ok_0.1, materials[j]) is Ok
            &&& map.dom().contains(materials[j].asset_id)
            &&& map[materials[j].asset_id] == resolve(
                textures,
                capture,
                slots,
                before->Ok_0.1,
                materials[j],
            )->Ok_0.0
        }),
    decreases k,
{
    if j < k - 1 {
        assert(materials[k - 1].asset_id != materials[j].asset_id);
        law_each_material_is_found(textures, capture, slots, materials, (k - 1) as nat, j);
    }
}

/// Every texture has a slot, under its id: its own index where no later texture has the same
/// id.
pub proof fn law_every_texture_has_its_slot(textures: Seq<Texture>, k: nat, i: int)
    requires
        0 <= i < k <= textures.len() <= usize::MAX,
        forall|j: int| i < j < k ==> (#[trigger] textures[j]).asset_id != textures[i].asset_id,
    ensures
        albedo_slots(textures, k).dom().contains(textures[i].asset_id),
        albedo_slots(textures, k)[textures[i].asset_id] == i,
    decreases k,
{
    if i < k - 1 {
        assert(textures[k - 1].asset_id != textures[i].asset_id);
        law_every_texture_has_its_slot(textures, (k - 1) as nat, i);
    }
}

/// A texture is captured for reloading exactly where it comes from a file and is not
/// generated, and then with its own slot, as an albedo texture.
pub proof fn law_file_backed_textures_are_captured(textures: Seq<Texture>, k: nat, i: int)
    requires
        0 <= i < k <= textures.len() <= usize::MAX,
    ensures
        ({
            let caps = albedo_captures(textures, k);
            &&& (exists|c: int| 0 <= c < caps.len() && (#[trigger] caps[c]).texture == i)
                <==> textures[i].generator@.len() == 0 && textures[i].source@.len() > 0
            &&& forall|c: int|
                0 <= c < caps.len() ==> (#[trigger] caps[c]).slot == caps[c].texture && 0
                    <= caps[c].texture < k && caps[c].kind == TextureKind::Albedo
        }),
    decreases k,
{
    let caps = albedo_captures(textures, k);
    let before = albedo_captures(textures, (k - 1) as nat);
    lemma_albedo_captures(textures, k);
    lemma_albedo_captures(textures, (k - 1) as nat);
    if i < k - 1 {
        law_file_backed_textures_are_captured(textures, (k - 1) as nat, i);
        if exists|c: int| 0 <= c < before.len() && (#[trigger] before[c]).texture == i {
            let c = choose|c: int| 0 <= c < before.len() && (#[trigger] before[c]).texture == i;
            assert(caps[c].texture == i);
        }
        if exists|c: int| 0 <= c < caps.len() && (#[trigger] caps[c]).texture == i {
            let c = choose|c: int| 0 <= c < caps.len() && (#[trigger] caps[c]).texture == i;
            assert(before[c].texture == i);
        }
    } else {
        if file_backed(textures[i]) {
            assert(caps[caps.len() - 1].texture == i);
        } else if exists|c: int| 0 <= c < caps.len() && (#[trigger] caps[c]).texture == i {
            let c = choose|c: int| 0 <= c < caps.len() && (#[trigger] caps[c]).texture == i;
            assert(before[c].texture == i);
        }
    }
}

proof fn lemma_albedo_captures(textures: Seq<Texture>, k: nat)
    requires
        k <= textures.len() <= usize::MAX,
    ensures
        ({
            let caps = albedo_captures(textures, k);
            forall|c: int|
                0 <= c < caps.len() ==> (#[trigger] caps[c]).slot == caps[c].texture && 0
                    <= caps[c].texture < k && caps[c].kind == TextureKind::Albedo
        }),
    decreases k,
{
    if k > 0 {
        lemma_albedo_captures(textures, (k - 1) as nat);
        let before = albedo_captures(textures, (k - 1) as nat);
        let caps = albedo_captures(textures, k);
        assert forall|c: int| 0 <= c < caps.len() implies (#[trigger] caps[c]).slot
            == caps[c].texture && 0 <= caps[c].texture < k && caps[c].kind
            == TextureKind::Albedo by {
            if c < before.len() {
                assert(caps[c] == before[c]);
            }
        }
    }
}

/// A normal map that takes a slot is captured for reloading exactly where captures are kept
/// and its texture comes from a file, and then with that slot, as a normal map; a normal map
/// that has a slot is captured no second time.
pub proof fn law_file_backed_normal_map_is_captured(
    textures: Seq<Texture>,
    capture: bool,
    pool: NormalView,
    id: AssetId,
)
    requires
        claim(textures, capture, pool, Some(id)) is Ok,
    ensures
        ({
            let (slot, next) = claim(textures, capture, pool, Some(id))->Ok_0;
            let t = first_texture(textures, id)->0;
            &&& next.slots.dom().contains(id) && next.slots[id] == slot
            &&& pool.slots.dom().contains(id) ==> next == pool
            &&& !pool.slots.dom().contains(id) ==> {
                &&& next.locators.len() == pool.locators.len() + 1
                &&& textures[t].locator == Some(next.locators.last())
                &&& if capture && textures[t].generator@.len() == 0 && textures[t].source@.len()
                    > 0 {
                    &&& next.captured.len() == pool.captured.len() + 1
                    &&& next.captured.last().texture == t
                    &&& next.captured.last().slot == slot
                    &&& next.captured.last().kind == TextureKind::NormalMap
                    &&& next.captured.drop_last() == pool.captured
                } else {
                    next.captured == pool.captured
                }
            }
        }),
{
    let (slot, next) = claim(textures, capture, pool, Some(id))->Ok_0;
    if next.captured.len() > pool.captured.len() {
        assert(next.captured.drop_last() =~= pool.captured);
    }
}

/// The texture that is reported has no payload, and every texture before it has one.
pub proof fn law_first_texture_without_payload(textures: Seq<Texture>, i: int, j: int)
    requires
        first_unbuilt(textures, i),
        0 <= j < textures.len(),
        textures[j].locator is None,
    ensures
        0 <= i <= j,
        textures[i].locator is None,
{
}

} // verus!
