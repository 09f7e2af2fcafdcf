//! Collecting decoded mesh payloads into the geometry tables.

use crate::draw_list::RoomGeometry;
use crate::float_bits::FloatBits;
use crate::geometry::LoadedMesh;
use crate::hot_reload_sources::{MeshSourceEntry, MeshSourceMap};
use crate::tables::{AssetId, copied, keys_of, lists_keys, lookup};
use crate::text::same_text;
use std::collections::{HashMap, HashSet};
use vstd::prelude::*;

verus! {

/// What became of a mesh payload.
#[derive(Debug)]
pub enum Payload {
    /// The asset carries no payload.
    Missing,
    /// The payload could not be read.
    Unreadable,
    /// The payload's bytes are not a mesh.
    Malformed,
    Decoded(LoadedMesh),
}

/// An asset that brings mesh geometry.
#[derive(Debug)]
pub struct MeshItem {
    pub asset_id: AssetId,
    pub payload: Payload,
}

/// A declared mesh.
#[derive(Debug)]
pub struct Mesh {
    pub item: MeshItem,
    /// The file of a file-backed mesh, or nothing.
    pub source: String,
    pub primitive_index: u32,
    pub lod_levels: u32,
    pub lod_distances: Vec<FloatBits>,
}

/// A declared generated mesh.
#[derive(Debug)]
pub struct ProceduralMesh {
    pub item: MeshItem,
    pub generator: String,
}

/// A declared file; only mesh files bring geometry.
#[derive(Debug)]
pub struct FileAsset {
    pub item: MeshItem,
    pub is_mesh: bool,
}

/// The kinds of asset that bring mesh geometry, in the order in which they load.
#[derive(Debug, Clone, Copy, PartialEq, Eq, Structural)]
pub enum MeshKind {
    Mesh,
    ProceduralMesh,
    VoxelChunk,
    File,
    Room,
}

/// What is wrong with a payload.
#[derive(Debug, Clone, Copy, PartialEq, Eq, Structural)]
pub enum Fault {
    Missing,
    Unreadable,
    Malformed,
}

/// The asset whose payload cannot be used, by its place among those of its kind.
#[derive(Debug, Clone, Copy, PartialEq, Eq, Structural)]
pub struct MeshLoadError {
    pub kind: MeshKind,
    pub index: usize,
    pub asset_id: AssetId,
    pub fault: Fault,
}

/// What is wrong with a payload, if anything.
pub open spec fn fault_of(p: Payload) -> Option<Fault> {
    match p {
        Payload::Missing => Some(Fault::Missing),
        Payload::Unreadable => Some(Fault::Unreadable),
        Payload::Malformed => Some(Fault::Malformed),
        Payload::Decoded(_) => None,
    }
}

/// The table after the first `k` items of a kind, a later item replacing an earlier
/// one of the same id; or the first fault.
pub open spec fn loaded(
    before: Map<u32, LoadedMesh>,
    kind: MeshKind,
    items: Seq<MeshItem>,
    k: nat,
) -> Result<Map<u32, LoadedMesh>, MeshLoadError>
    decreases k,
{
    if k == 0 {
        Ok(before)
    } else {
        match loaded(before, kind, items, (k - 1) as nat) {
            Err(e) => Err(e),
            Ok(m) => match items[k - 1].payload {
                Payload::Decoded(mesh) => Ok(m.insert(items[k - 1].asset_id, mesh)),
                p => Err(
                    MeshLoadError {
                        kind,
                        index: (k - 1) as usize,
                        asset_id: items[k - 1].asset_id,
                        fault: fault_of(p)->0,
                    },
                ),
            },
        }
    }
}

/// The table after every item of a kind.
pub open spec fn loaded_all(
    before: Result<Map<u32, LoadedMesh>, MeshLoadError>,
    kind: MeshKind,
    items: Seq<MeshItem>,
) -> Result<Map<u32, LoadedMesh>, MeshLoadError> {
    match before {
        Err(e) => Err(e),
        Ok(m) => loaded(m, kind, items, items.len()),
    }
}

proof fn lemma_loaded_error(
    before: Map<u32, LoadedMesh>,
    kind: MeshKind,
    items: Seq<MeshItem>,
    j: nat,
    n: nat,
)
    requires
        j <= n,
        loaded(before, kind, items, j) is Err,
    ensures
        loaded(before, kind, items, n) == loaded(before, kind, items, j),
    decreases n - j,
{
    if j < n {
        lemma_loaded_error(before, kind, items, j, (n - 1) as nat);
    }
}

/// The items of the mesh files.
pub open spec fn mesh_files(files: Seq<FileAsset>, k: nat) -> Seq<MeshItem>
    decreases k,
{
    if k == 0 {
        Seq::empty()
    } else {
        let before = mesh_files(files, (k - 1) as nat);
        if files[k - 1].is_mesh {
            before.push(files[k - 1].item)
        } else {
            before
        }
    }
}

/// Everything that brings mesh geometry.
#[derive(Debug)]
pub struct MeshDecls {
    pub meshes: Vec<Mesh>,
    pub procedural: Vec<ProceduralMesh>,
    pub chunks: Vec<MeshItem>,
    pub files: Vec<FileAsset>,
}

impl MeshDecls {
    /// The geometry table: meshes, then generated meshes, then voxel chunks, then mesh
    /// files; or the first fault in that order.
    pub open spec fn geometry(&self) -> Result<Map<u32, LoadedMesh>, MeshLoadError> {
        let meshes = loaded_all(
            Ok(Map::empty()),
            MeshKind::Mesh,
            self.meshes@.map_values(|m: Mesh| m.item),
        );
        let procedural = loaded_all(
            meshes,
            MeshKind::ProceduralMesh,
            self.procedural@.map_values(|m: ProceduralMesh| m.item),
        );
        let chunks = loaded_all(procedural, MeshKind::VoxelChunk, self.chunks@);
        loaded_all(chunks, MeshKind::File, mesh_files(self.files@, self.files@.len()))
    }
}

/// The last of the first `k` meshes with an id and a source.
pub open spec fn last_source(meshes: Seq<Mesh>, k: nat, id: AssetId) -> Option<int>
    decreases k,
{
    if k == 0 {
        None
    } else if meshes[k - 1].item.asset_id == id && meshes[k - 1].source@.len() > 0 {
        Some(k - 1)
    } else {
        last_source(meshes, (k - 1) as nat, id)
    }
}

/// Where a file-backed mesh came from.
#[derive(Debug)]
pub struct MeshSourceMeta {
    pub source: String,
    pub primitive_index: u32,
    pub lod_levels: u32,
    pub lod_distances: Vec<FloatBits>,
}

/// Whether this is where a mesh came from.
pub open spec fn is_meta(mesh: Mesh, meta: MeshSourceMeta) -> bool {
    &&& meta.source@ == mesh.source@
    &&& meta.primitive_index == mesh.primitive_index
    &&& meta.lod_levels == mesh.lod_levels
    &&& meta.lod_distances@ == mesh.lod_distances@
}

/// Whether a table holds where each of the first `k` meshes came from.
pub open spec fn is_source_table(
    meshes: Seq<Mesh>,
    k: nat,
    table: Map<u32, MeshSourceMeta>,
) -> bool {
    forall|id: u32|
        match last_source(meshes, k, id) {
            Some(i) => #[trigger] table.dom().contains(id) && is_meta(meshes[i], table[id]),
            None => !table.dom().contains(id),
        }
}

/// A generated mesh that encloses the camera.
pub open spec fn encloses(m: ProceduralMesh, id: AssetId) -> bool {
    m.generator@ == "skybox"@ && m.item.asset_id == id
}

/// The loaded tables.
#[derive(Debug)]
pub struct MeshGeometryMaps {
    pub geometry: HashMap<u32, LoadedMesh>,
    pub sources: HashMap<u32, MeshSourceMeta>,
    /// The meshes whose props never stream or cull.
    pub always_resident: HashSet<u32>,
}

fn capture_mesh_sources(meshes: &Vec<Mesh>, capture: bool) -> (r: HashMap<u32, MeshSourceMeta>)
    ensures
        is_source_table(
            meshes@,
            if capture {
                meshes@.len()
            } else {
                0
            },
            r@,
        ),
{
    broadcast use vstd::std_specs::hash::group_hash_axioms;

    let mut table: HashMap<u32, MeshSourceMeta> = HashMap::new();
    if !capture {
        return table;
    }
    let mut i: usize = 0;
    while i < meshes.len()
        invariant
            i <= meshes@.len(),
            is_source_table(meshes@, i as nat, table@),
        decreases meshes@.len() - i,
    {
        broadcast use vstd::std_specs::hash::group_hash_axioms;

        let m: &Mesh = &meshes[i];
        let ghost was = table@;
        if m.source.as_str().unicode_len() > 0 {
            table.insert(
                m.item.asset_id,
                MeshSourceMeta {
                    source: m.source.clone(),
                    primitive_index: m.primitive_index,
                    lod_levels: m.lod_levels,
                    lod_distances: copied(&m.lod_distances),
                },
            );
        }
        proof {
            assert forall|id: u32|
                match last_source(meshes@, (i + 1) as nat, id) {
                    Some(j) => #[trigger] table@.dom().contains(id) && is_meta(
                        meshes@[j],
                        table@[id],
                    ),
                    None => !table@.dom().contains(id),
                } by {
                assert(was.dom().contains(id) || !was.dom().contains(id));
            }
        }
        i = i + 1;
    }
    table
}

fn enclosing_meshes(meshes: &Vec<ProceduralMesh>) -> (r: HashSet<u32>)
    ensures
        forall|id: u32|
            #[trigger] r@.contains(id) <==> exists|i: int|
                0 <= i < meshes@.len() && encloses(#[trigger] meshes@[i], id),
{
    broadcast use vstd::std_specs::hash::group_hash_axioms;

    let mut set: HashSet<u32> = HashSet::new();
    let mut i: usize = 0;
    while i < meshes.len()
        invariant
            i <= meshes@.len(),
            forall|id: u32|
                #[trigger] set@.contains(id) <==> exists|j: int|
                    0 <= j < i && encloses(#[trigger] meshes@[j], id),
        decreases meshes@.len() - i,
    {
        broadcast use vstd::std_specs::hash::group_hash_axioms;

        let m: &ProceduralMesh = &meshes[i];
        let ghost was = set@;
        if same_text(m.generator.as_str(), "skybox") {
            set.insert(m.item.asset_id);
        }
        proof {
            assert forall|id: u32| #[trigger] set@.contains(id) <==> exists|j: int|
                0 <= j < i + 1 && encloses(#[trigger] meshes@[j], id) by {
                if set@.contains(id) {
                    if was.contains(id) {
                        let j = choose|j: int| 0 <= j < i && encloses(#[trigger] meshes@[j], id);
                        assert(encloses(meshes@[j], id));
                    } else {
                        assert(encloses(meshes@[i as int], id));
                    }
                }
                if exists|j: int| 0 <= j < i + 1 && encloses(#[trigger] meshes@[j], id) {
                    let j = choose|j: int| 0 <= j < i + 1 && encloses(#[trigger] meshes@[j], id);
                    if j < i {
                        assert(was.contains(id));
                    }
                }
            }
        }
        i = i + 1;
    }
    set
}

fn load_items(
    table: &mut HashMap<u32, LoadedMesh>,
    kind: MeshKind,
    items: Vec<MeshItem>,
) -> (r: Result<(), MeshLoadError>)
    ensures
        match loaded(old(table)@, kind, items@, items@.len()) {
            Ok(m) => r is Ok && final(table)@ == m,
            Err(e) => r == Err::<(), MeshLoadError>(e),
        },
{
    let ghost was = table@;
    let ghost all = items@;
    let count: usize = items.len();
    let mut k: usize = 0;
    for item in it: items.into_iter()
        invariant
            it.seq() == all,
            k == it.index(),
            all.len() == count,
            all == items@,
            was == old(table)@,
            loaded(was, kind, all, k as nat) == Ok::<Map<u32, LoadedMesh>, MeshLoadError>(table@),
    {
        broadcast use vstd::std_specs::hash::group_hash_axioms;

        let asset_id: AssetId = item.asset_id;
        assert(item == all[k as int]);
        let fault: Option<Fault> = match item.payload {
            Payload::Decoded(mesh) => {
                table.insert(asset_id, mesh);
                None
            },
            Payload::Missing => Some(Fault::Missing),
            Payload::Unreadable => Some(Fault::Unreadable),
            Payload::Malformed => Some(Fault::Malformed),
        };
        match fault {
            Some(fault) => {
                proof {
                    lemma_loaded_error(was, kind, all, (k + 1) as nat, all.len());
                }
                return Err(MeshLoadError { kind, index: k, asset_id, fault });
            },
            None => {},
        }
        k = k + 1;
    }
    Ok(())
}

fn mesh_items(meshes: Vec<Mesh>) -> (r: Vec<MeshItem>)
    ensures
        r@ == meshes@.map_values(|m: Mesh| m.item),
{
    let ghost all = meshes@;
    let mut out: Vec<MeshItem> = Vec::new();
    for m in it: meshes.into_iter()
        invariant
            it.seq() == all,
            out@ == all.map_values(|m: Mesh| m.item).subrange(0, it.index() as int),
    {
        assert(m == all[out@.len() as int]);
        out.push(m.item);
        assert(out@ =~= all.map_values(|m: Mesh| m.item).subrange(0, out@.len() as int));
    }
    assert(out@ =~= all.map_values(|m: Mesh| m.item));
    out
}

fn procedural_items(meshes: Vec<ProceduralMesh>) -> (r: Vec<MeshItem>)
    ensures
        r@ == meshes@.map_values(|m: ProceduralMesh| m.item),
{
    let ghost all = meshes@;
    let mut out: Vec<MeshItem> = Vec::new();
    for m in it: meshes.into_iter()
        invariant
            it.seq() == all,
            out@ == all.map_values(|m: ProceduralMesh| m.item).subrange(0, it.index() as int),
    {
        assert(m == all[out@.len() as int]);
        out.push(m.item);
        assert(out@ =~= all.map_values(|m: ProceduralMesh| m.item).subrange(
            0,
            out@.len() as int,
        ));
    }
    assert(out@ =~= all.map_values(|m: ProceduralMesh| m.item));
    out
}

fn file_items(files: Vec<FileAsset>) -> (r: Vec<MeshItem>)
    ensures
        r@ == mesh_files(files@, files@.len()),
{
    let ghost all = files@;
    let ghost mut k: nat = 0;
    let mut out: Vec<MeshItem> = Vec::new();
    for f in it: files.into_iter()
        invariant
            it.seq() == all,
            k == it.index(),
            out@ == mesh_files(all, k),
    {
        assert(f == all[k as int]);
        if f.is_mesh {
            out.push(f.item);
        }
        proof {
            k = k + 1;
        }
    }
    out
}

/// Load every mesh. Fails on the first payload that is missing, unreadable or
/// malformed.
pub fn load_mesh_geometry(decls: MeshDecls, capture_sources: bool) -> (r: Result<
    MeshGeometryMaps,
    MeshLoadError,
>)
    ensures
        match decls.geometry() {
            Err(e) => r == Err::<MeshGeometryMaps, MeshLoadError>(e),
            Ok(table) => r matches Ok(maps) && {
                &&& maps.geometry@ == table
                &&& is_source_table(
                    decls.meshes@,
                    if capture_sources {
                        decls.meshes@.len()
                    } else {
                        0
                    },
                    maps.sources@,
                )
                &&& forall|id: u32|
                    #[trigger] maps.always_resident@.contains(id) <==> exists|i: int|
                        0 <= i < decls.procedural@.len() && encloses(
                            #[trigger] decls.procedural@[i],
                            id,
                        )
            },
        },
{
    broadcast use vstd::std_specs::hash::group_hash_axioms;

    let always_resident: HashSet<u32> = enclosing_meshes(&decls.procedural);
    let sources: HashMap<u32, MeshSourceMeta> = capture_mesh_sources(
        &decls.meshes,
        capture_sources,
    );
    let mut geometry: HashMap<u32, LoadedMesh> = HashMap::new();
    assert(geometry@ =~= Map::<u32, LoadedMesh>::empty());
    let meshes: Vec<MeshItem> = mesh_items(decls.meshes);
    match load_items(&mut geometry, MeshKind::Mesh, meshes) {
        Err(e) => {
            return Err(e);
        },
        Ok(()) => {},
    }
    let procedural: Vec<MeshItem> = procedural_items(decls.procedural);
    match load_items(&mut geometry, MeshKind::ProceduralMesh, procedural) {
        Err(e) => {
            return Err(e);
        },
        Ok(()) => {},
    }
    match load_items(&mut geometry, MeshKind::VoxelChunk, decls.chunks) {
        Err(e) => {
            return Err(e);
        },
        Ok(()) => {},
    }
    let files: Vec<MeshItem> = file_items(decls.files);
    match load_items(&mut geometry, MeshKind::File, files) {
        Err(e) => {
            return Err(e);
        },
        Ok(()) => {},
    }
    Ok(MeshGeometryMaps { geometry, sources, always_resident })
}

/// A declared room.
#[derive(Debug)]
pub struct Room {
    pub asset_id: AssetId,
    pub texture: Option<AssetId>,
    /// The blob that holds the room's payload.
    pub blob_index: u32,
    pub payload: Payload,
}

/// The first room whose payload cannot be used.
pub open spec fn first_bad_room(rooms: Seq<Room>, i: int) -> bool {
    &&& 0 <= i < rooms.len()
    &&& fault_of(rooms[i].payload) is Some
    &&& forall|j: int| 0 <= j < i ==> fault_of((#[trigger] rooms[j]).payload) is None
}

/// Load every room, with the blobs that held their payloads. Fails on the first
/// payload that is missing, unreadable or malformed.
pub fn load_room_geometry(rooms: Vec<Room>) -> (r: Result<
    (Vec<RoomGeometry>, Vec<u32>),
    MeshLoadError,
>)
    ensures
        match r {
            Ok((geometry, blobs)) => {
                &&& geometry@.len() == rooms@.len()
                &&& blobs@ == rooms@.map_values(|m: Room| m.blob_index)
                &&& forall|i: int|
                    0 <= i < rooms@.len() ==> (#[trigger] geometry@[i]).texture
                        == rooms@[i].texture && geometry@[i].asset_id == rooms@[i].asset_id
                        && rooms@[i].payload == Payload::Decoded(geometry@[i].mesh)
            },
            Err(e) => exists|i: int| #[trigger]
                first_bad_room(rooms@, i) && e == (MeshLoadError {
                    kind: MeshKind::Room,
                    index: i as usize,
                    asset_id: rooms@[i].asset_id,
                    fault: fault_of(rooms@[i].payload)->0,
                }),
        },
{
    let ghost all = rooms@;
    let mut geometry: Vec<RoomGeometry> = Vec::new();
    let mut blobs: Vec<u32> = Vec::new();
    let count: usize = rooms.len();
    let mut k: usize = 0;
    for room in it: rooms.into_iter()
        invariant
            it.seq() == all,
            k == it.index(),
            all.len() == count,
            all == rooms@,
            geometry@.len() == k,
            blobs@ == all.map_values(|m: Room| m.blob_index).subrange(0, k as int),
            forall|i: int|
                0 <= i < k ==> (#[trigger] geometry@[i]).texture == all[i].texture
                    && geometry@[i].asset_id == all[i].asset_id && all[i].payload == Payload::Decoded(geometry@[i].mesh),
    {
        assert(room == all[k as int]);
        assert forall|j: int| 0 <= j < k implies fault_of((#[trigger] all[j]).payload) is None by {
            assert(geometry@[j].texture == all[j].texture);
        }
        let asset_id: AssetId = room.asset_id;
        let fault: Option<Fault> = match room.payload {
            Payload::Decoded(mesh) => {
                blobs.push(room.blob_index);
                geometry.push(RoomGeometry { asset_id, texture: room.texture, mesh });
                None
            },
            Payload::Missing => Some(Fault::Missing),
            Payload::Unreadable => Some(Fault::Unreadable),
            Payload::Malformed => Some(Fault::Malformed),
        };
        match fault {
            Some(fault) => {
                assert(first_bad_room(all, k as int));
                return Err(MeshLoadError { kind: MeshKind::Room, index: k, asset_id, fault });
            },
            None => {},
        }
        k = k + 1;
        assert(blobs@ =~= all.map_values(|m: Room| m.blob_index).subrange(0, k as int));
    }
    assert(blobs@ =~= all.map_values(|m: Room| m.blob_index));
    Ok((geometry, blobs))
}

/// The meshes that are captured for reloading, among the first `k` of an order: those
/// with a source and at least one draw.
pub open spec fn captured_meshes(
    order: Seq<AssetId>,
    sources: Map<u32, MeshSourceMeta>,
    draws: Map<u32, Vec<usize>>,
    k: nat,
) -> Seq<AssetId>
    decreases k,
{
    if k == 0 {
        Seq::empty()
    } else {
        let before = captured_meshes(order, sources, draws, (k - 1) as nat);
        let id = order[k - 1];
        if sources.dom().contains(id) && draws.dom().contains(id) && draws[id]@.len() > 0 {
            before.push(id)
        } else {
            before
        }
    }
}

/// Whether an entry is what is captured of a mesh.
pub open spec fn is_mesh_entry(
    meta: MeshSourceMeta,
    draws: Seq<usize>,
    e: MeshSourceEntry,
) -> bool {
    &&& e.source@ == meta.source@
    &&& e.primitive_index == meta.primitive_index
    &&& e.lod_levels == meta.lod_levels
    &&& e.lod_distances@ == meta.lod_distances@
    &&& e.draw_indices@ == draws
}

/// Whether entries are those of a list of meshes.
pub open spec fn are_mesh_entries(
    ids: Seq<AssetId>,
    sources: Map<u32, MeshSourceMeta>,
    draws: Map<u32, Vec<usize>>,
    entries: Seq<MeshSourceEntry>,
) -> bool {
    &&& entries.len() == ids.len()
    &&& forall|i: int|
        0 <= i < ids.len() ==> is_mesh_entry(
            sources[ids[i]],
            draws[ids[i]]@,
            #[trigger] entries[i],
        )
}

/// Pair the captured sources with the draws of their meshes, in no particular order. A
/// mesh that nothing draws has no entry.
pub fn capture_mesh_draws(
    sources: &HashMap<u32, MeshSourceMeta>,
    draws: &HashMap<u32, Vec<usize>>,
) -> (r: MeshSourceMap)
    ensures
        exists|order: Seq<AssetId>| #[trigger]
            lists_keys(order, sources@.dom()) && are_mesh_entries(
                captured_meshes(order, sources@, draws@, order.len()),
                sources@,
                draws@,
                r.entries@,
            ),
{
    let order: Vec<AssetId> = keys_of(sources);
    let mut out: MeshSourceMap = MeshSourceMap::new();
    let mut k: usize = 0;
    while k < order.len()
        invariant
            k <= order@.len(),
            out.entries@.len() == captured_meshes(order@, sources@, draws@, k as nat).len(),
            forall|i: int|
                0 <= i < out.entries@.len() ==> is_mesh_entry(
                    sources@[captured_meshes(order@, sources@, draws@, k as nat)[i]],
                    draws@[captured_meshes(order@, sources@, draws@, k as nat)[i]]@,
                    #[trigger] out.entries@[i],
                ),
        decreases order@.len() - k,
    {
        let id: AssetId = order[k];
        let ghost was = out.entries@;
        match (lookup(sources, id), lookup(draws, id)) {
            (Some(meta), Some(list)) => {
                if list.len() > 0 {
                    out.entries.push(
                        MeshSourceEntry {
                            source: meta.source.clone(),
                            primitive_index: meta.primitive_index,
                            lod_levels: meta.lod_levels,
                            lod_distances: copied(&meta.lod_distances),
                            draw_indices: copied(list),
                        },
                    );
                }
            },
            _ => {},
        }
        proof {
            let ids = captured_meshes(order@, sources@, draws@, (k + 1) as nat);
            assert forall|i: int| 0 <= i < out.entries@.len() implies is_mesh_entry(
                sources@[ids[i]],
                draws@[ids[i]]@,
                #[trigger] out.entries@[i],
            ) by {
                if i < was.len() {
                    assert(out.entries@[i] == was[i]);
                }
            }
        }
        k = k + 1;
    }
    assert(lists_keys(order@, sources@.dom()) && are_mesh_entries(
        captured_meshes(order@, sources@, draws@, order@.len()),
        sources@,
        draws@,
        out.entries@,
    ));
    out
}

/// Loading succeeds exactly when every payload is decoded, and then every declared
/// id has geometry.
pub proof fn law_load_is_total(
    before: Map<u32, LoadedMesh>,
    kind: MeshKind,
    items: Seq<MeshItem>,
    k: nat,
)
    requires
        k <= items.len(),
    ensures
        loaded(before, kind, items, k) is Ok <==> forall|i: int|
            0 <= i < k ==> (#[trigger] items[i]).payload is Decoded,
        loaded(before, kind, items, k) matches Ok(m) ==> {
            &&& forall|i: int| 0 <= i < k ==> m.dom().contains((#[trigger] items[i]).asset_id)
            &&& forall|id: u32| before.dom().contains(id) ==> #[trigger] m.dom().contains(id)
        },
    decreases k,
{
    if k > 0 {
        law_load_is_total(before, kind, items, (k - 1) as nat);
        assert(items[k - 1].payload is Decoded || !(items[k - 1].payload is Decoded));
    }
}

/// The geometry of an id is that of the last item with it, and without one what it was.
pub proof fn law_last_item_gives_the_geometry(
    before: Map<u32, LoadedMesh>,
    kind: MeshKind,
    items: Seq<MeshItem>,
    k: nat,
    id: AssetId,
)
    requires
        k <= items.len(),
        loaded(before, kind, items, k) is Ok,
    ensures
        ({
            let table = loaded(before, kind, items, k)->Ok_0;
            &&& (forall|i: int| 0 <= i < k ==> (#[trigger] items[i]).asset_id != id) ==> {
                &&& table.dom().contains(id) <==> before.dom().contains(id)
                &&& before.dom().contains(id) ==> table[id] == before[id]
            }
            &&& forall|i: int|
                0 <= i < k && (#[trigger] items[i]).asset_id == id && (forall|j: int|
                    i < j < k ==> (#[trigger] items[j]).asset_id != id) ==> table.dom().contains(id)
                    && items[i].payload == Payload::Decoded(table[id])
        }),
    decreases k,
{
    if k > 0 {
        law_last_item_gives_the_geometry(before, kind, items, (k - 1) as nat, id);
        let table = loaded(before, kind, items, k)->Ok_0;
        assert forall|i: int|
            0 <= i < k && (#[trigger] items[i]).asset_id == id && (forall|j: int|
                i < j < k ==> (#[trigger] items[j]).asset_id != id) implies table.dom().contains(id)
            && items[i].payload == Payload::Decoded(table[id]) by {
            if i < k - 1 {
                assert(items[k - 1].asset_id != id);
                assert(forall|j: int| i < j < k - 1 ==> (#[trigger] items[j]).asset_id != id);
            }
        }
        if forall|i: int| 0 <= i < k ==> (#[trigger] items[i]).asset_id != id {
            assert(items[k - 1].asset_id != id);
        }
    }
}

/// An error names the first item whose payload is not a mesh, and what is wrong with it.
pub proof fn law_first_fault_is_reported(
    before: Map<u32, LoadedMesh>,
    kind: MeshKind,
    items: Seq<MeshItem>,
    k: nat,
)
    requires
        k <= items.len() <= usize::MAX,
        loaded(before, kind, items, k) is Err,
    ensures
        ({
            let e = loaded(before, kind, items, k)->Err_0;
            let p = items[e.index as int].payload;
            &&& e.kind == kind
            &&& e.index < k
            &&& e.asset_id == items[e.index as int].asset_id
            &&& e.fault == Fault::Missing <==> p is Missing
            &&& e.fault == Fault::Unreadable <==> p is Unreadable
            &&& e.fault == Fault::Malformed <==> p is Malformed
            &&& forall|i: int| 0 <= i < e.index ==> (#[trigger] items[i]).payload is Decoded
        }),
    decreases k,
{
    if loaded(before, kind, items, (k - 1) as nat) is Err {
        law_first_fault_is_reported(before, kind, items, (k - 1) as nat);
    } else {
        law_load_is_total(before, kind, items, (k - 1) as nat);
    }
}

/// Only mesh files bring geometry, each of them, in order.
pub proof fn law_mesh_files_bring_geometry(files: Seq<FileAsset>, k: nat, item: MeshItem)
    requires
        k <= files.len(),
    ensures
        mesh_files(files, k).contains(item) <==> exists|i: int|
            0 <= i < k && (#[trigger] files[i]).is_mesh && files[i].item == item,
        mesh_files(files, k).len() <= k,
        k > 0 ==> mesh_files(files, k).len() == mesh_files(files, (k - 1) as nat).len() + (
        if files[k - 1].is_mesh {
            1int
        } else {
            0
        }),
    decreases k,
{
    if k > 0 {
        law_mesh_files_bring_geometry(files, (k - 1) as nat, item);
        let before = mesh_files(files, (k - 1) as nat);
        let now = mesh_files(files, k);
        if before.contains(item) {
            let i = choose|i: int| 0 <= i < before.len() && before[i] == item;
            assert(now[i] == item);
        }
        if files[k - 1].is_mesh && files[k - 1].item == item {
            assert(now[now.len() - 1] == item);
        }
        if now.contains(item) && !before.contains(item) {
            let i = choose|i: int| 0 <= i < now.len() && now[i] == item;
            assert(i == before.len());
            assert(files[k - 1].is_mesh);
        }
    }
}

/// Everything loads exactly where every mesh, generated mesh, voxel chunk and mesh file is
/// decoded, and then each of them has geometry.
pub proof fn law_everything_loads(decls: MeshDecls)
    ensures
        ({
            let files = mesh_files(decls.files@, decls.files@.len());
            let all = decls.geometry();
            &&& all is Ok <==> {
                &&& forall|i: int|
                    0 <= i < decls.meshes@.len() ==> (
                    #[trigger] decls.meshes@[i]).item.payload is Decoded
                &&& forall|i: int|
                    0 <= i < decls.procedural@.len() ==> (
                    #[trigger] decls.procedural@[i]).item.payload is Decoded
                &&& forall|i: int|
                    0 <= i < decls.chunks@.len() ==> (#[trigger] decls.chunks@[i]).payload is Decoded
                &&& forall|i: int|
                    0 <= i < files.len() ==> (#[trigger] files[i]).payload is Decoded
            }
            &&& all matches Ok(table) ==> {
                &&& forall|i: int|
                    0 <= i < decls.meshes@.len() ==> table.dom().contains(
                        (#[trigger] decls.meshes@[i]).item.asset_id,
                    )
                &&& forall|i: int|
                    0 <= i < decls.procedural@.len() ==> table.dom().contains(
                        (#[trigger] decls.procedural@[i]).item.asset_id,
                    )
                &&& forall|i: int|
                    0 <= i < decls.chunks@.len() ==> table.dom().contains(
                        (#[trigger] decls.chunks@[i]).asset_id,
                    )
                &&& forall|i: int|
                    0 <= i < files.len() ==> table.dom().contains((#[trigger] files[i]).asset_id)
            }
        }),
{
    let meshes = decls.meshes@.map_values(|m: Mesh| m.item);
    let procedural = decls.procedural@.map_values(|m: ProceduralMesh| m.item);
    let files = mesh_files(decls.files@, decls.files@.len());
    assert forall|i: int| 0 <= i < decls.meshes@.len() implies #[trigger] decls.meshes@[i].item
        == meshes[i] by {}
    assert forall|i: int| 0 <= i < decls.procedural@.len() implies #[trigger] decls.procedural@[i].item
        == procedural[i] by {}
    law_load_is_total(Map::empty(), MeshKind::Mesh, meshes, meshes.len());
    let m0 = loaded_all(Ok(Map::empty()), MeshKind::Mesh, meshes);
    assert((forall|i: int| 0 <= i < meshes.len() ==> (#[trigger] meshes[i]).payload is Decoded)
        <==> (forall|i: int|
        0 <= i < decls.meshes@.len() ==> (#[trigger] decls.meshes@[i]).item.payload is Decoded)) by {
        if forall|i: int|
            0 <= i < decls.meshes@.len() ==> (
            #[trigger] decls.meshes@[i]).item.payload is Decoded {
            assert forall|i: int| 0 <= i < meshes.len() implies (
            #[trigger] meshes[i]).payload is Decoded by {
                assert(decls.meshes@[i].item.payload is Decoded);
            }
        }
    }
    assert((forall|i: int|
        0 <= i < procedural.len() ==> (#[trigger] procedural[i]).payload is Decoded) <==> (forall|
        i: int,
    |
        0 <= i < decls.procedural@.len() ==> (
        #[trigger] decls.procedural@[i]).item.payload is Decoded)) by {
        if forall|i: int|
            0 <= i < decls.procedural@.len() ==> (
            #[trigger] decls.procedural@[i]).item.payload is Decoded {
            assert forall|i: int| 0 <= i < procedural.len() implies (
            #[trigger] procedural[i]).payload is Decoded by {
                assert(decls.procedural@[i].item.payload is Decoded);
            }
        }
    }
    match m0 {
        Ok(t0) => {
            law_load_is_total(t0, MeshKind::ProceduralMesh, procedural, procedural.len());
            match loaded_all(m0, MeshKind::ProceduralMesh, procedural) {
                Ok(t1) => {
                    law_load_is_total(t1, MeshKind::VoxelChunk, decls.chunks@, decls.chunks@.len());
                    match loaded(t1, MeshKind::VoxelChunk, decls.chunks@, decls.chunks@.len()) {
                        Ok(t2) => {
                            law_load_is_total(t2, MeshKind::File, files, files.len());
                        },
                        Err(_) => {},
                    }
                },
                Err(_) => {},
            }
        },
        Err(_) => {},
    }
}

/// The source of an id is that of the last mesh with it that has one.
pub proof fn law_source_is_the_last_with_one(meshes: Seq<Mesh>, k: nat, id: AssetId)
    requires
        k <= meshes.len(),
    ensures
        match last_source(meshes, k, id) {
            Some(i) => 0 <= i < k && meshes[i].item.asset_id == id && meshes[i].source@.len() > 0
                && forall|j: int|
                i < j < k && (#[trigger] meshes[j]).item.asset_id == id ==> meshes[j].source@.len()
                    == 0,
            None => forall|j: int|
                0 <= j < k && (#[trigger] meshes[j]).item.asset_id == id ==> meshes[j].source@.len()
                    == 0,
        },
    decreases k,
{
    if k > 0 {
        law_source_is_the_last_with_one(meshes, (k - 1) as nat, id);
    }
}

/// A mesh is watched exactly where it has a source and something draws it, once.
pub proof fn law_drawn_sources_are_watched(
    order: Seq<AssetId>,
    sources: Map<u32, MeshSourceMeta>,
    draws: Map<u32, Vec<usize>>,
    k: nat,
    id: AssetId,
)
    requires
        k <= order.len(),
    ensures
        captured_meshes(order, sources, draws, k).contains(id) <==> {
            &&& order.subrange(0, k as int).contains(id)
            &&& sources.dom().contains(id)
            &&& draws.dom().contains(id)
            &&& draws[id]@.len() > 0
        },
        order.no_duplicates() ==> captured_meshes(order, sources, draws, k).no_duplicates(),
    decreases k,
{
    let now = captured_meshes(order, sources, draws, k);
    if k > 0 {
        law_drawn_sources_are_watched(order, sources, draws, (k - 1) as nat, id);
        law_drawn_sources_are_watched(order, sources, draws, (k - 1) as nat, order[k - 1]);
        let before = captured_meshes(order, sources, draws, (k - 1) as nat);
        let head = order.subrange(0, k - 1);
        let next = order.subrange(0, k as int);
        if head.contains(id) {
            let i = choose|i: int| 0 <= i < head.len() && head[i] == id;
            assert(next[i] == id);
        }
        assert(next[k - 1] == order[k - 1]);
        if next.contains(id) && order[k - 1] != id {
            let i = choose|i: int| 0 <= i < next.len() && next[i] == id;
            assert(head[i] == id);
        }
        if before.contains(id) {
            let i = choose|i: int| 0 <= i < before.len() && before[i] == id;
            assert(now[i] == id);
        }
        if now.len() > before.len() && order[k - 1] == id {
            assert(now[now.len() - 1] == id);
        }
        if now.contains(id) && !before.contains(id) {
            let i = choose|i: int| 0 <= i < now.len() && now[i] == id;
            assert(i == before.len());
        }
        if order.no_duplicates() && now.len() > before.len() {
            if before.contains(order[k - 1]) {
                let i = choose|i: int| 0 <= i < head.len() && head[i] == order[k - 1];
                assert(order[i] == order[k - 1]);
            }
            assert forall|a: int, b: int| 0 <= a < now.len() && 0 <= b < now.len() && a
                != b implies now[a] != now[b] by {
                if a < before.len() {
                    assert(before.contains(before[a]));
                }
                if b < before.len() {
                    assert(before.contains(before[b]));
                }
            }
        }
    } else {
        assert(order.subrange(0, 0).len() == 0);
    }
}

/// The source table holds, under a mesh's id, what the last mesh of that id with a source was
/// declared with: its file, its primitive and its levels of detail.
pub proof fn law_source_table_holds_the_declaration(
    meshes: Seq<Mesh>,
    table: Map<u32, MeshSourceMeta>,
    id: AssetId,
)
    requires
        is_source_table(meshes, meshes.len(), table),
    ensures
        table.dom().contains(id) <==> last_source(meshes, meshes.len(), id) is Some,
        last_source(meshes, meshes.len(), id) matches Some(i) ==> {
            &&& table[id].source@ == meshes[i].source@
            &&& table[id].primitive_index == meshes[i].primitive_index
            &&& table[id].lod_levels == meshes[i].lod_levels
            &&& table[id].lod_distances@ == meshes[i].lod_distances@
        },
{
    let b = table.dom().contains(id);
}

/// An entry of a drawn mesh has what the mesh was declared with, and its draws.
pub proof fn law_mesh_entry_has_its_draws(
    ids: Seq<AssetId>,
    sources: Map<u32, MeshSourceMeta>,
    draws: Map<u32, Vec<usize>>,
    entries: Seq<MeshSourceEntry>,
    i: int,
)
    requires
        are_mesh_entries(ids, sources, draws, entries),
        0 <= i < ids.len(),
    ensures
        entries.len() == ids.len(),
        entries[i].source@ == sources[ids[i]].source@,
        entries[i].primitive_index == sources[ids[i]].primitive_index,
        entries[i].lod_levels == sources[ids[i]].lod_levels,
        entries[i].lod_distances@ == sources[ids[i]].lod_distances@,
        entries[i].draw_indices@ == draws[ids[i]]@,
{
    let e = entries[i];
}

/// The room that is reported cannot be read, and every room before it can.
pub proof fn law_first_bad_room_is_reported(rooms: Seq<Room>, i: int, j: int)
    requires
        first_bad_room(rooms, i),
        0 <= j < rooms.len(),
        fault_of(rooms[j].payload) is Some,
    ensures
        0 <= i <= j,
        fault_of(rooms[i].payload) is Some,
{
}

/// A generated mesh encloses the camera exactly where it is a sky box of that id.
pub proof fn law_sky_boxes_enclose(m: ProceduralMesh, id: AssetId)
    ensures
        encloses(m, id) <==> m.item.asset_id == id && m.generator@ == seq![
            's',
            'k',
            'y',
            'b',
            'o',
            'x',
        ],
{
    reveal_strlit("skybox");
    assert("skybox"@ =~= seq!['s', 'k', 'y', 'b', 'o', 'x']);
}

} // verus!
