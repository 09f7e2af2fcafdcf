use concinnity_gfx::hot_reload_sources::{
    ColorLutSource, EnvironmentMapSource, HotReloadSources, MeshSourceEntry, MeshSourceMap,
    ProceduralMeshSourceMap, ShaderKind, ShaderStageSourceEntry, ShaderStageSourceMap,
    SkinnedMeshSourceEntry, SkinnedMeshSourceMap, TextureKind, TextureSourceMap,
};
use serde_json::Value;

fn textures(sources: &[&str]) -> TextureSourceMap {
    let mut map = TextureSourceMap::new();
    for (i, s) in sources.iter().enumerate() {
        map.push_albedo(s.to_string(), 0, i);
    }
    map
}

fn empty() -> HotReloadSources {
    HotReloadSources {
        map: TextureSourceMap::new(),
        color_lut: None,
        environment_map: None,
        meshes: MeshSourceMap::new(),
        skinned_meshes: SkinnedMeshSourceMap::new(),
        procedural_meshes: ProceduralMeshSourceMap::new(),
        shader_stages: ShaderStageSourceMap::new(),
        world_jsonl_path: None,
    }
}

#[test]
fn the_directory_of_every_source_is_watched_once() {
    let map = textures(&["b/tex/one.png", "a/two.png", "b/tex/three.png", "./four.png"]);
    assert_eq!(map.watch_dirs(), vec![".", "a", "b/tex"]);
}

#[test]
fn spellings_of_one_directory_are_watched_once() {
    let map = textures(&["a//b/x.png", "a/b/y.png", "a/./b/z.png"]);
    assert_eq!(map.watch_dirs(), vec!["a//b"]);
}

#[test]
fn directories_come_in_path_order() {
    // Components are compared one by one, so `a/z` comes before `a-b`.
    let map = textures(&["a-b/x", "a/z/x", "a/x", "/root/x"]);
    assert_eq!(map.watch_dirs(), vec!["/root", "a", "a/z", "a-b"]);
}

#[test]
fn a_source_under_the_root_has_the_root_to_watch() {
    assert_eq!(textures(&["/x.png", "a/y.png", "/z.png"]).watch_dirs(), vec!["/", "a"]);
    assert_eq!(textures(&["/"]).watch_dirs(), Vec::<String>::new());
}

#[test]
fn doubled_slashes_and_dots_at_the_end_do_not_count() {
    assert_eq!(textures(&["a//x.png"]).watch_dirs().len(), 1);
    // Each of these is directly in `a`, whatever its spelling.
    let map = textures(&["a/x.png", "a//x.png", "a/./x.png", "a/x.png/", "a/x.png/."]);
    assert_eq!(map.watch_dirs(), vec!["a"]);
    assert_eq!(textures(&["../x.png", "./x.png", "b/x.png"]).watch_dirs(), vec![".", "..", "b"]);
}

#[test]
fn a_source_without_a_directory_has_none_to_watch() {
    assert_eq!(textures(&["plain.png", ""]).watch_dirs(), Vec::<String>::new());
    assert_eq!(textures(&[]).watch_dirs(), Vec::<String>::new());
}

#[test]
fn texture_entries_keep_their_pool() {
    let mut map = TextureSourceMap::new();
    assert!(map.is_empty());
    map.push_albedo("a/x.png".to_string(), 2, 5);
    map.push_normal_map("b/y.png".to_string(), 1, 6);
    assert_eq!(map.len(), 2);
    assert_eq!(map.entries[0].kind, TextureKind::Albedo);
    assert_eq!((map.entries[0].image_index, map.entries[0].slot), (2, 5));
    assert_eq!(map.entries[1].kind, TextureKind::NormalMap);
    assert_eq!((map.entries[1].image_index, map.entries[1].slot), (1, 6));
    assert_eq!(map.watch_dirs(), vec!["a", "b"]);
}

#[test]
fn every_catalogue_watches_its_sources() {
    let mut meshes = MeshSourceMap::new();
    meshes.entries.push(MeshSourceEntry {
        source: "meshes/box.glb".to_string(),
        primitive_index: 0,
        lod_levels: 0,
        lod_distances: vec![],
        draw_indices: vec![1],
    });
    assert_eq!(meshes.watch_dirs(), vec!["meshes"]);
    assert_eq!((meshes.len(), meshes.is_empty()), (1, false));
    let mut skinned = SkinnedMeshSourceMap::new();
    skinned.entries.push(SkinnedMeshSourceEntry {
        source: "rigs/hero.glb".to_string(),
        skinned_index: 0,
        vertex_base: 0,
        vertex_count: 3,
        index_count: 3,
        joint_count: 1,
    });
    assert_eq!(skinned.watch_dirs(), vec!["rigs"]);
    assert_eq!((skinned.len(), skinned.is_empty()), (1, false));
    let mut stages = ShaderStageSourceMap::new();
    stages.entries.push(ShaderStageSourceEntry {
        kind: ShaderKind::Vertex,
        resolved_path: "shaders/main.hlsl".to_string(),
    });
    stages.entries.push(ShaderStageSourceEntry {
        kind: ShaderKind::Fragment,
        resolved_path: "shaders/main.hlsl".to_string(),
    });
    assert_eq!(stages.watch_dirs(), vec!["shaders"]);
    assert_eq!((stages.len(), stages.is_empty()), (2, false));
}

#[test]
fn generated_meshes_keep_their_arguments() {
    let mut map = ProceduralMeshSourceMap::new();
    let args: Value = serde_json::from_str("{\"generator\":\"box\",\"size\":[1,2,3]}").unwrap();
    map.capture("undrawn".to_string(), Value::Null, None);
    map.capture("box_mesh".to_string(), args.clone(), Some(&vec![4, 7]));
    assert_eq!((map.len(), map.is_empty()), (1, false));
    assert_eq!(map.entries[0].name, "box_mesh");
    assert_eq!(map.entries[0].args, args);
    assert_eq!(map.entries[0].draw_indices, vec![4, 7]);
}

#[test]
fn sources_are_kept_only_where_there_are_any() {
    assert!(empty().keep_if_any(true).is_none());
    assert!(empty().keep_if_any(false).is_none());
    let with_map = HotReloadSources { map: textures(&["a/b"]), ..empty() };
    assert!(with_map.keep_if_any(false).is_none());
    let with_map = HotReloadSources { map: textures(&["a/b"]), ..empty() };
    assert_eq!(with_map.keep_if_any(true).map(|s| s.map.len()), Some(1));
    let with_world =
        HotReloadSources { world_jsonl_path: Some("world.jsonl".to_string()), ..empty() };
    assert!(with_world.keep_if_any(true).is_some());
    let with_lut = HotReloadSources {
        color_lut: Some(ColorLutSource { resolved_path: "lut.cube".to_string() }),
        ..empty()
    };
    assert!(with_lut.keep_if_any(true).is_some());
    let with_env = HotReloadSources {
        environment_map: Some(EnvironmentMapSource {
            resolved_path: "sky.hdr".to_string(),
            prefilter_face_size: 128,
            irradiance_face_size: 32,
            prefilter_samples: 64,
        }),
        ..empty()
    };
    assert!(with_env.keep_if_any(true).is_some());
}
