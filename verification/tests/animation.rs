use concinnity_gfx::animation::{
    Animation, AnimationSystem, Crossfade, CrossfadeError, TargetState, Transition,
    advance_weights, resumed_origin,
};
use concinnity_gfx::float_bits::FloatBits;
use concinnity_gfx::internal_systems::internal_systems;
use std::time::Duration;

fn bits(x: f32) -> FloatBits {
    FloatBits::new(x.to_bits())
}

fn num(x: FloatBits) -> f32 {
    f32::from_bits(x.bits)
}

fn secs(n: u64) -> FloatBits {
    bits(Duration::from_nanos(n).as_secs_f32())
}

fn sum(a: FloatBits, b: FloatBits) -> FloatBits {
    bits(num(a) + num(b))
}

fn share(now: FloatBits, start: FloatBits, duration: FloatBits) -> FloatBits {
    bits((num(now) - num(start)) / num(duration))
}

fn lerp(a: FloatBits, b: FloatBits, t: FloatBits) -> FloatBits {
    bits(num(a) + (num(b) - num(a)) * num(t))
}

fn anim(target: Option<u32>, clip: &'static str, weight: f32, fade: f32) -> Animation<&'static str> {
    Animation {
        target,
        clip,
        weight: bits(weight),
        fade_in_secs: bits(fade),
        source: String::new(),
        animation_index: 0,
        animation_name: String::new(),
        looping: true,
    }
}

fn system(anims: Vec<Animation<&'static str>>) -> AnimationSystem<&'static str> {
    let mut s = AnimationSystem::new();
    s.init(anims, false);
    s
}

fn step(s: &mut AnimationSystem<&'static str>, now_ms: u64, menu: bool) -> Option<f32> {
    s.step(now_ms * 1_000_000, menu, &secs, &sum, &share, &lerp).map(num)
}

fn bucket<'a>(s: &'a AnimationSystem<&'static str>, t: u32) -> &'a TargetState<&'static str> {
    &s.buckets[s.index[&t]]
}

fn weights(s: &AnimationSystem<&'static str>, t: u32) -> Vec<f32> {
    bucket(s, t).current_weights.iter().map(|w| num(*w)).collect()
}

// Resuming after a pause must leave clip time `t = now - origin` exactly
// where it was when the pause began, so playback continues from the frozen
// pose with no jump, no matter how long the menu was open.
#[test]
fn resumed_origin_freezes_clip_time_across_pause() {
    let start = Duration::from_secs(1000).as_nanos() as u64;
    // Paused at t = 5s, menu held open for 30s of real time.
    let anchor = start + Duration::from_secs(5).as_nanos() as u64;
    let now = anchor + Duration::from_secs(30).as_nanos() as u64;

    let t_at_pause = num(secs(anchor - start));
    let new_origin = resumed_origin(start, anchor, now);
    let t_on_resume = num(secs(now - new_origin));

    assert!(
        (t_on_resume - t_at_pause).abs() < 1e-6,
        "clip time jumped across the pause: {t_at_pause} -> {t_on_resume}"
    );
}

// An `Animation` in the world implies the internal AnimationSystem, which no asset
// declares.
#[test]
fn animation_component_spawns_internal_system() {
    let systems = internal_systems(false, &Vec::new(), 1);
    let names: Vec<&str> = systems.iter().map(|s| s.name()).collect();
    assert_eq!(names, ["AnimationSystem"]);
}

// No `Animation` means no AnimationSystem.
#[test]
fn no_animation_no_internal_system() {
    assert!(internal_systems(false, &Vec::new(), 0).is_empty());
}

#[test]
fn clips_gather_under_their_target() {
    let s = system(vec![
        anim(Some(10), "walk", 1.0, 0.0),
        anim(None, "lost", 1.0, 0.0),
        anim(Some(20), "idle", 0.5, 0.0),
        anim(Some(10), "run", 0.25, 0.0),
    ]);
    assert_eq!(s.buckets.len(), 2);
    let clips: Vec<&str> = bucket(&s, 10).clips.iter().map(|c| c.clip).collect();
    assert_eq!(clips, ["walk", "run"]);
    assert_eq!(weights(&s, 10), [1.0, 0.25]);
    assert!(bucket(&s, 10).transition.is_none());
    assert!(s.reload_entries().is_empty());
}

#[test]
fn file_backed_clips_are_captured_with_their_place() {
    let mut file = anim(Some(10), "run", 0.25, 0.0);
    file.source = "hero.glb".to_string();
    file.animation_index = 3;
    let mut s = AnimationSystem::new();
    s.init(vec![anim(Some(10), "walk", 1.0, 0.0), file], true);
    let entries = s.reload_entries();
    assert_eq!(entries.len(), 1);
    assert_eq!((entries[0].target, entries[0].clip_index), (10, 1));
    assert_eq!(entries[0].source, "hero.glb");
    assert_eq!(entries[0].animation_index, 3);

    assert!(s.apply_reloaded_clip(10, 1, "sprint", bits(0.75)));
    assert_eq!(bucket(&s, 10).clips[1].clip, "sprint");
    assert_eq!(num(bucket(&s, 10).clips[1].declared_weight), 0.75);
    assert!(!s.apply_reloaded_clip(10, 2, "none", bits(1.0)));
    assert!(!s.apply_reloaded_clip(99, 0, "none", bits(1.0)));
    assert_eq!(bucket(&s, 10).clips.len(), 2);
}

#[test]
fn a_fading_clip_ramps_to_its_weight() {
    let mut s = system(vec![
        anim(Some(1), "a", 1.0, 2.0),
        anim(Some(1), "b", 0.5, 0.0),
        anim(Some(1), "c", 0.8, -4.0),
    ]);
    assert_eq!(weights(&s, 1), [0.0, 0.5, 0.8]);
    // The ramp begins with the first step, and no later one moves its start.
    assert_eq!(step(&mut s, 5000, false), Some(0.0));
    assert_eq!(weights(&s, 1), [0.0, 0.5, 0.8]);
    assert_eq!(step(&mut s, 6000, false), Some(1.0));
    assert_eq!(weights(&s, 1), [0.5, 0.5, 0.8]);
    assert_eq!(step(&mut s, 7000, false), Some(2.0));
    assert_eq!(weights(&s, 1), [1.0, 0.5, 0.8]);
    assert!(bucket(&s, 1).transition.is_none());
}

#[test]
fn a_ramp_begins_with_the_first_step_and_not_with_a_command_before_it() {
    let mut s = system(vec![anim(Some(1), "a", 1.0, 2.0)]);
    // The clock starts with the commands, a second before the first step.
    assert!(s.apply_crossfade_commands(Vec::new(), 4_000_000_000, &secs).is_empty());
    assert_eq!(step(&mut s, 5000, false), Some(1.0));
    assert_eq!(weights(&s, 1), [0.0]);
    assert_eq!(step(&mut s, 6000, false), Some(2.0));
    assert_eq!(weights(&s, 1), [0.5]);
}

#[test]
fn a_menu_freezes_clip_time() {
    let mut s = system(vec![anim(Some(1), "a", 1.0, 0.0)]);
    assert_eq!(step(&mut s, 1000, false), Some(0.0));
    assert_eq!(step(&mut s, 3000, false), Some(2.0));
    assert_eq!(step(&mut s, 4000, true), None);
    assert_eq!(step(&mut s, 9000, true), None);
    // Three seconds had passed when the menu opened.
    assert_eq!(step(&mut s, 10000, false), Some(3.0));
    assert_eq!(step(&mut s, 10500, false), Some(3.5));
}

#[test]
fn a_pause_before_the_first_step_does_not_count() {
    let mut s = system(vec![anim(Some(1), "a", 1.0, 0.0)]);
    assert_eq!(step(&mut s, 1000, true), None);
    assert_eq!(step(&mut s, 4000, false), Some(0.0));
}

fn fade(target: u32, weights: &[f32], secs: f32) -> Crossfade {
    Crossfade {
        target,
        weights: weights.iter().map(|w| bits(*w)).collect(),
        duration_secs: bits(secs),
    }
}

#[test]
fn crossfades_are_answered_one_by_one() {
    let mut s = system(vec![anim(Some(1), "a", 1.0, 0.0), anim(Some(1), "b", 0.0, 0.0)]);
    step(&mut s, 0, false);
    let replies = s.apply_crossfade_commands(
        vec![
            fade(9, &[1.0], 1.0),
            fade(1, &[1.0], 1.0),
            fade(1, &[0.5, 0.5], 4.0),
            fade(1, &[0.0, 1.0], 2.0),
        ],
        1_000_000_000,
        &secs,
    );
    assert_eq!(
        replies,
        vec![
            Err(CrossfadeError::UnknownTarget { target: 9 }),
            Err(CrossfadeError::WeightCount { weights: 1, clips: 2, target: 1 }),
            Ok(()),
            Ok(()),
        ]
    );
    // The last accepted request rules.
    step(&mut s, 2000, false);
    assert_eq!(weights(&s, 1), [0.5, 0.5]);
    step(&mut s, 3000, false);
    assert_eq!(weights(&s, 1), [0.0, 1.0]);
}

#[test]
fn a_ramp_without_length_snaps() {
    let mut s = system(vec![anim(Some(1), "a", 1.0, 0.0)]);
    s.crossfade(fade(1, &[0.3], -2.0), bits(0.5)).expect("accepted");
    step(&mut s, 10, false);
    assert_eq!(weights(&s, 1), [0.3]);
}

#[test]
fn advancing_without_a_ramp_changes_nothing() {
    let state = TargetState {
        target: 4,
        clips: vec![],
        current_weights: vec![bits(0.25)],
        transition: None,
    };
    let now: TargetState<u8> = advance_weights(state, bits(9.0), &sum, &share, &lerp);
    assert_eq!(num(now.current_weights[0]), 0.25);
    // A moment before a ramp counts as its beginning.
    let ramp = Transition {
        source_weights: vec![bits(1.0)],
        target_weights: vec![bits(3.0)],
        start_secs: bits(10.0),
        duration_secs: bits(2.0),
    };
    let state = TargetState { transition: Some(ramp), ..now };
    let now = advance_weights(state, bits(4.0), &sum, &share, &lerp);
    assert_eq!(num(now.current_weights[0]), 1.0);
    assert!(now.transition.is_some());
}

#[test]
fn poses_sample_one_clip_or_blend_several() {
    let s = system(vec![
        anim(Some(1), "solo", 0.1, 0.0),
        anim(Some(2), "a", 0.5, 0.0),
        anim(Some(2), "b", 0.25, 0.0),
    ]);
    let sample = |c: &&'static str, t: FloatBits| format!("{}@{}", c, num(t));
    let blend = |l: &Vec<String>, w: &Vec<FloatBits>| {
        format!("{} * {:?}", l.join("+"), w.iter().map(|x| num(*x)).collect::<Vec<f32>>())
    };
    assert_eq!(s.sample_pose(1, bits(2.0), &sample, &blend), Some("solo@2".to_string()));
    assert_eq!(
        s.sample_pose(2, bits(0.5), &sample, &blend),
        Some("a@0.5+b@0.5 * [0.5, 0.25]".to_string())
    );
    assert_eq!(s.sample_pose(3, bits(0.5), &sample, &blend), None);
}
