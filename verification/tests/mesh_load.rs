use concinnity_gfx::float_bits::FloatBits;
use concinnity_gfx::geometry::LoadedMesh;
use concinnity_gfx::mesh_load::{
    Fault, FileAsset, Mesh, MeshDecls, MeshItem, MeshKind, MeshLoadError, Payload,
    ProceduralMesh, Room, capture_mesh_draws, load_mesh_geometry, load_room_geometry,
};
use std::collections::HashMap;

fn decoded(indices: usize) -> Payload {
    Payload::Decoded(LoadedMesh {
        vertices: vec![],
        indices: vec![0; indices],
        lod_alternates: vec![],
    })
}

fn item(asset_id: u32, payload: Payload) -> MeshItem {
    MeshItem { asset_id, payload }
}

fn mesh(asset_id: u32, source: &str, payload: Payload) -> Mesh {
    Mesh {
        item: item(asset_id, payload),
        source: source.to_string(),
        primitive_index: 2,
        lod_levels: 3,
        lod_distances: vec![FloatBits::new(10.0f32.to_bits())],
    }
}

fn generated(asset_id: u32, generator: &str, payload: Payload) -> ProceduralMesh {
    ProceduralMesh { item: item(asset_id, payload), generator: generator.to_string() }
}

fn decls() -> MeshDecls {
    MeshDecls {
        meshes: vec![mesh(1, "m/a.glb", decoded(3)), mesh(2, "", decoded(6))],
        procedural: vec![generated(3, "skybox", decoded(9)), generated(4, "box", decoded(12))],
        chunks: vec![item(5, decoded(15))],
        files: vec![
            FileAsset { item: item(6, decoded(18)), is_mesh: true },
            FileAsset { item: item(7, Payload::Missing), is_mesh: false },
        ],
    }
}

#[test]
fn every_kind_brings_geometry() {
    let maps = load_mesh_geometry(decls(), true).unwrap();
    let mut counts: Vec<(u32, usize)> =
        maps.geometry.iter().map(|(id, m)| (*id, m.indices.len())).collect();
    counts.sort();
    assert_eq!(counts, vec![(1, 3), (2, 6), (3, 9), (4, 12), (5, 15), (6, 18)]);
    assert_eq!(maps.sources.len(), 1);
    assert_eq!(maps.sources[&1].source, "m/a.glb");
    assert_eq!((maps.sources[&1].primitive_index, maps.sources[&1].lod_levels), (2, 3));
    // A skybox never streams or culls.
    assert_eq!(maps.always_resident.len(), 1);
    assert!(maps.always_resident.contains(&3));
    assert!(load_mesh_geometry(decls(), false).unwrap().sources.is_empty());
}

#[test]
fn a_later_asset_replaces_an_earlier_one() {
    let mut d = decls();
    d.chunks.push(item(1, decoded(30)));
    assert_eq!(load_mesh_geometry(d, false).unwrap().geometry[&1].indices.len(), 30);
}

#[test]
fn the_first_fault_in_load_order_is_the_error() {
    let mut d = decls();
    d.files[0].item.payload = Payload::Malformed;
    assert_eq!(
        load_mesh_geometry(d, false).unwrap_err(),
        MeshLoadError { kind: MeshKind::File, index: 0, asset_id: 6, fault: Fault::Malformed }
    );
    let mut d = decls();
    d.files[0].item.payload = Payload::Malformed;
    d.chunks[0].payload = Payload::Unreadable;
    assert_eq!(
        load_mesh_geometry(d, false).unwrap_err(),
        MeshLoadError {
            kind: MeshKind::VoxelChunk,
            index: 0,
            asset_id: 5,
            fault: Fault::Unreadable
        }
    );
    let mut d = decls();
    d.procedural[1].item.payload = Payload::Missing;
    assert_eq!(
        load_mesh_geometry(d, false).unwrap_err(),
        MeshLoadError {
            kind: MeshKind::ProceduralMesh,
            index: 1,
            asset_id: 4,
            fault: Fault::Missing
        }
    );
    let mut d = decls();
    d.procedural[1].item.payload = Payload::Missing;
    d.meshes[1].item.payload = Payload::Missing;
    assert_eq!(
        load_mesh_geometry(d, false).unwrap_err(),
        MeshLoadError { kind: MeshKind::Mesh, index: 1, asset_id: 2, fault: Fault::Missing }
    );
}

#[test]
fn rooms_keep_their_order_and_blobs() {
    let room = |asset_id: u32, blob_index: u32, payload: Payload| Room {
        asset_id,
        texture: Some(asset_id + 1),
        blob_index,
        payload,
    };
    let (geometry, blobs) =
        load_room_geometry(vec![room(1, 8, decoded(3)), room(2, 9, decoded(6))]).unwrap();
    assert_eq!(blobs, vec![8, 9]);
    assert_eq!(geometry[1].texture, Some(3));
    assert_eq!(geometry[1].mesh.indices.len(), 6);
    assert_eq!(
        load_room_geometry(vec![room(1, 8, decoded(3)), room(2, 9, Payload::Unreadable)])
            .unwrap_err(),
        MeshLoadError { kind: MeshKind::Room, index: 1, asset_id: 2, fault: Fault::Unreadable }
    );
}

#[test]
fn only_drawn_meshes_are_captured() {
    let sources = load_mesh_geometry(
        MeshDecls {
            meshes: vec![
                mesh(1, "m/a.glb", decoded(3)),
                mesh(2, "m/b.glb", decoded(3)),
                mesh(3, "m/c.glb", decoded(3)),
            ],
            procedural: vec![],
            chunks: vec![],
            files: vec![],
        },
        true,
    )
    .unwrap()
    .sources;
    let draws = HashMap::from([(1, vec![]), (3, vec![5, 6])]);
    let map = capture_mesh_draws(&sources, &draws);
    assert_eq!(map.len(), 1);
    assert_eq!(map.entries[0].source, "m/c.glb");
    assert_eq!(map.entries[0].draw_indices, vec![5, 6]);
}
