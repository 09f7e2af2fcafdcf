use concinnity_gfx::float_bits::FloatBits;
use concinnity_gfx::scene::{
    EntityDraws, Scene, SceneReel, decomposed_visibility_snapshot, setup_scene_reel,
};
use std::collections::HashMap;

// The snapshot pairs each entity's draw slots with its scene; scene-less
// entities are always visible.
#[test]
fn snapshot_pairs_each_entity_draws_with_its_scene() {
    // Entity in scene 7 with two draw slots, an entity with no scene (always
    // visible) and one slot, and an entity in scene 8 with one slot.
    let (a, b, c) = (0u64, 1, 2);
    let handles = vec![
        EntityDraws { entity: a, draws: vec![10, 11] },
        EntityDraws { entity: b, draws: vec![20] },
        EntityDraws { entity: c, draws: vec![30] },
    ];
    let members = HashMap::from([(a, 7), (c, 8)]);

    let (draws, scenes) = decomposed_visibility_snapshot(&handles, &members);

    // Pairs follow RenderHandle column order (a, b, c).
    assert_eq!(draws, vec![vec![10usize, 11], vec![20], vec![30]]);
    assert_eq!(scenes, vec![Some(7), None, Some(8)]);
}

// An entity carrying SceneMember but no RenderHandle contributes no draws
// (it is not in the render set), so it never appears in the snapshot.
#[test]
fn snapshot_skips_scene_members_without_a_render_handle() {
    let (only_scene, rendered) = (0u64, 1u64);
    let handles = vec![EntityDraws { entity: rendered, draws: vec![5] }];
    let members = HashMap::from([(only_scene, 7)]);

    let (draws, scenes) = decomposed_visibility_snapshot(&handles, &members);
    assert_eq!(draws, vec![vec![5usize]]);
    assert_eq!(scenes, vec![None]);
}

fn scene(asset_id: u32, secs: f32) -> Scene {
    Scene {
        asset_id,
        duration_secs: Some(FloatBits::new(secs.to_bits())),
        transition: "fade".to_string(),
    }
}

fn reel(scenes: Vec<u32>, start_index: u32) -> SceneReel {
    SceneReel { asset_id: 1, scenes, start_index, looping: true }
}

#[test]
fn a_reel_plays_its_scenes_in_order() {
    let scenes = vec![scene(7, 1.0), scene(8, 2.0), scene(9, 3.0)];
    let start = setup_scene_reel(&scenes, &reel(vec![9, 7], 1)).expect("a reel");
    let order: Vec<u32> = start.entries.iter().map(|e| e.scene).collect();
    assert_eq!(order, vec![9, 7]);
    assert_eq!(start.current_idx, 1);
    assert!(start.looping);
    assert_eq!(start.entries[0].transition, "fade");
    assert_eq!(f32::from_bits(start.entries[1].duration_secs.unwrap().bits), 1.0);
}
