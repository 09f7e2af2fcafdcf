use concinnity_gfx::draw_list::Prop;
use concinnity_gfx::float_bits::FloatBits;
use concinnity_gfx::hot_reload_sources::ShaderKind;
use concinnity_gfx::mesh_load::Fault;
use concinnity_gfx::scene_setup::{
    BlobUses, BlobsInUse, ShaderError, ShaderStage, SingleAsset, all_decoded, blobs_to_release,
    capture_shader_sources, first_draws, pick_fog, pick_shaders, pick_single, probes_to_place,
    prop_parents, sdf_label, startup_cursor, uses_builtin_pass,
};
use concinnity_gfx::streaming::PayloadLocator;
use std::collections::{HashMap, HashSet};

fn at(blob_index: u32) -> PayloadLocator {
    PayloadLocator { blob_index, offset: 4, len: 8 }
}

fn stage(kind: ShaderKind, path: Option<&str>) -> ShaderStage {
    ShaderStage { kind, locator: Some(at(0)), watch_path: path.map(|p| p.to_string()) }
}

#[test]
fn the_first_stage_of_each_kind_is_picked() {
    let stages = vec![
        stage(ShaderKind::Fragment, Some("s/f.hlsl")),
        stage(ShaderKind::Vertex, None),
        stage(ShaderKind::Vertex, Some("s/v.hlsl")),
        stage(ShaderKind::VertexInstanced, Some("s/i.hlsl")),
    ];
    let set = pick_shaders(&stages).unwrap();
    assert_eq!((set.vertex, set.fragment, set.instanced), (1, 0, Some(3)));
    let map = capture_shader_sources(&stages, &set, true);
    assert_eq!(map.len(), 2);
    assert_eq!(map.entries[0].kind, ShaderKind::Fragment);
    assert_eq!(map.entries[0].resolved_path, "s/f.hlsl");
    assert_eq!(map.entries[1].kind, ShaderKind::VertexInstanced);
    assert!(capture_shader_sources(&stages, &set, false).is_empty());
}

#[test]
fn shaders_must_be_there_and_built() {
    let mut stages = vec![];
    assert_eq!(pick_shaders(&stages), Err(ShaderError::NoVertex));
    stages.push(stage(ShaderKind::Vertex, None));
    assert_eq!(pick_shaders(&stages), Err(ShaderError::NoFragment));
    stages.push(stage(ShaderKind::Fragment, None));
    assert_eq!(pick_shaders(&stages).unwrap().instanced, None);
    stages[1].locator = None;
    assert_eq!(pick_shaders(&stages), Err(ShaderError::FragmentWithoutPayload));
    stages[0].locator = None;
    assert_eq!(pick_shaders(&stages), Err(ShaderError::VertexWithoutPayload));
}

#[test]
fn the_builtin_pass_needs_both_builtin_stages() {
    let name = |s: &str| Some(s.to_string());
    assert!(uses_builtin_pass(&name("default_vert.hlsl"), &name("default_frag.hlsl")));
    assert!(uses_builtin_pass(&name("default.metal"), &name("default.metal")));
    assert!(!uses_builtin_pass(&name("default_vert.hlsl"), &name("mine.hlsl")));
    assert!(!uses_builtin_pass(&None, &name("default_frag.hlsl")));
}

#[test]
fn the_first_single_asset_is_used() {
    let asset = |asset_id: u32, source: &str, generator: &str| SingleAsset {
        asset_id,
        generator: generator.to_string(),
        source: source.to_string(),
        locator: Some(at(asset_id)),
    };
    assert!(pick_single(&vec![], true).unwrap().is_none());
    let list = vec![asset(1, "sky.hdr", ""), asset(2, "other.hdr", "")];
    let pick = pick_single(&list, true).unwrap().unwrap();
    assert_eq!(pick.locator.blob_index, 1);
    assert!(pick.watch_source);
    assert!(!pick_single(&list, false).unwrap().unwrap().watch_source);
    assert!(!pick_single(&vec![asset(1, "x", "gradient")], true).unwrap().unwrap().watch_source);
    let mut unbuilt = list;
    unbuilt[0].locator = None;
    assert_eq!(pick_single(&unbuilt, true).unwrap_err(), 1);
}

#[test]
fn the_first_enabled_fog_is_used() {
    assert_eq!(pick_fog(&vec![false, true, true]), Some(1));
    assert_eq!(pick_fog(&vec![false]), None);
    assert_eq!(pick_fog(&vec![]), None);
}

#[test]
fn a_pool_is_decoded_or_fails_at_its_first_fault() {
    assert_eq!(all_decoded(vec![Ok(1), Ok(2)]), Ok(vec![1, 2]));
    assert_eq!(
        all_decoded(vec![Ok(1), Err(Fault::Malformed), Err(Fault::Missing)]),
        Err((1, Fault::Malformed))
    );
}

#[test]
fn unnamed_volumes_are_labelled_by_id() {
    assert_eq!(sdf_label(Some("cave".to_string()), 7), "cave");
    assert_eq!(sdf_label(None, 0), "sdf_volume_0");
    assert_eq!(sdf_label(None, 1203), "sdf_volume_1203");
}

#[test]
fn blobs_are_released_once_unless_needed() {
    let uses = BlobUses {
        vertex: 0,
        fragment: 1,
        instanced: Some(0),
        textures: vec![at(2), at(3), at(2)],
        normal_maps: vec![at(4)],
        rooms: vec![5, 1],
        fonts: vec![6],
        skinned: vec![7, 8],
    };
    let needed = BlobsInUse {
        audio: HashSet::from([3]),
        sdf: HashSet::from([6]),
        terrain: HashSet::from([8]),
    };
    assert_eq!(blobs_to_release(&uses, &needed), vec![0, 1, 2, 4, 5, 7]);
}

#[test]
fn parents_are_found_by_id() {
    let prop = |asset_id: u32, parent: Option<u32>| Prop {
        asset_id,
        model: None,
        mesh: None,
        material: None,
        texture: None,
        collider: None,
        interactable: false,
        pickup: false,
        parent,
        scene: None,
        cull_distance: FloatBits::new(0),
        is_held: false,
    };
    let props = vec![prop(1, Some(2)), prop(2, None), prop(3, Some(99)), prop(2, Some(1))];
    assert_eq!(prop_parents(&props), vec![Some(3), None, None, Some(0)]);
}

#[test]
fn the_cursor_at_the_start() {
    let c = startup_cursor(true, false, false);
    assert_eq!((c.menu_mode, c.capture), (false, true));
    for (region, key) in [(true, false), (false, true), (true, true)] {
        let c = startup_cursor(true, region, key);
        assert_eq!((c.menu_mode, c.capture), (true, false));
        let c = startup_cursor(false, region, key);
        assert_eq!((c.menu_mode, c.capture), (false, false));
    }
}

#[test]
fn declared_probes_win_over_seeded_ones() {
    assert_eq!(probes_to_place(vec![1], Some(vec![2, 3])), vec![1]);
    assert_eq!(probes_to_place(vec![], Some(vec![2, 3])), vec![2, 3]);
    assert_eq!(probes_to_place::<u8>(vec![], None), Vec::<u8>::new());
}

#[test]
fn templates_are_the_first_draws() {
    let draws = HashMap::from([(1, vec![8, 9]), (2, vec![]), (3, vec![4])]);
    let map = first_draws(&draws);
    assert_eq!(map, HashMap::from([(1, 8), (3, 4)]));
}
