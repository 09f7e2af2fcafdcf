use concinnity_gfx::float_bits::FloatBits;
use concinnity_gfx::graphics_system::{
    AssetDefaults, CameraView, Event, GraphicsSystem, Phase, Step, StepResult, StreamingStats,
    WorldReloadState, camera_view, normal_map_slot,
};
use concinnity_gfx::hot_reload_sources::{
    HotReloadSources, MeshSourceMap, ProceduralMeshSourceMap, ShaderStageSourceMap,
    SkinnedMeshSourceMap, TextureSourceMap,
};
use concinnity_gfx::input::{RenderInput, frame_input};
use concinnity_gfx::keymap::{Key, KeyMap};
use concinnity_gfx::quality::{IndirectLighting, PostProcessConfig};
use concinnity_gfx::settings::{PostProcessParams, QualityPreset, WindowMode};
use concinnity_gfx::streaming::ChunkStreamState;
use std::collections::HashMap;

fn bits(x: f32) -> FloatBits {
    FloatBits::new(x.to_bits())
}

fn num(x: FloatBits) -> f32 {
    f32::from_bits(x.bits)
}

fn defaults() -> AssetDefaults {
    let z = bits(0.0);
    AssetDefaults {
        window_mode: WindowMode::Windowed,
        window_width: 1280,
        window_height: 720,
        shadow_update: 1,
        render_scale: 2,
        upscale_backend: 3,
        post_process: PostProcessParams {
            exposure: bits(1.0),
            bloom_intensity: z,
            bloom_threshold: z,
            bloom_knee: z,
            vignette: z,
            lut_strength: z,
        },
        post_config: PostProcessConfig {
            ssao: true,
            ssr: false,
            ray_traced_reflections: false,
            indirect_lighting: IndirectLighting::Ibl,
            auto_exposure: false,
            aa_mode: 1,
            ssgi_resolution: 0,
            ssgi_rays: 4,
            ssgi_steps: 8,
            reflection_blur_resolution: 1,
            upscale_quality: 0,
            upscale_backend: 0,
            hdr_display: false,
            hdr_pq: false,
            temporal_upscaling: false,
            occlusion_two_pass: false,
            exposure_ev: z,
            ssao_radius: z,
            ssao_intensity: z,
            ssr_intensity: z,
            ssr_max_distance: z,
            ssgi_intensity: z,
            ssgi_max_distance: z,
            auto_exposure_min_ev: z,
            auto_exposure_max_ev: z,
            auto_exposure_speed: z,
        },
    }
}

fn system() -> GraphicsSystem<u32> {
    GraphicsSystem::new(&defaults())
}

#[test]
fn a_fresh_driver_has_the_engine_defaults() {
    let s = system();
    assert_eq!(s.clear_color.map(num), [0.01, 0.01, 0.02, 1.0]);
    assert_eq!(s.settings.frames_in_flight, 2);
    assert!(!s.settings.vsync);
    assert_eq!((s.fps_cap, s.next_frame_deadline), (0, None));
    assert_eq!((s.settings.shadow_distance, s.settings.shadow_cascades), (80, 4));
    assert_eq!(s.settings.anisotropy, 8);
    assert_eq!(s.settings.shadow_map_size, 2048);
    assert_eq!((s.settings.texture_cap, s.settings.texture_budget), (96, 4));
    assert_eq!(s.settings.quality_preset, QualityPreset::Auto);
    assert_eq!(s.settings.keymap, KeyMap::default());
    assert_eq!(num(s.settings.ambient_intensity), 1.0);
    assert_eq!(s.settings.shadow_update, 1);
    assert_eq!(s.settings.upscale_backend, 3);
    assert!(s.caps.ray_tracing);
    assert!(s.backend.is_none() && !s.failed && s.frame_count == 0);
}

fn minus(a: FloatBits, b: FloatBits) -> FloatBits {
    bits(num(a) - num(b))
}

// Run a frame, with the outcome of each phase given by `outcome`.
fn frame(
    s: &mut GraphicsSystem<u32>,
    elapsed: f32,
    outcome: impl Fn(Phase) -> Event,
) -> (Vec<Phase>, StepResult, bool) {
    let (mut step, _) = s.begin_step(bits(elapsed), &minus);
    let mut phases = Vec::new();
    loop {
        match step {
            Step::Run(p) => {
                phases.push(p);
                step = s.after_phase(p, outcome(p));
            }
            Step::End { result, wait_idle } => return (phases, result, wait_idle),
        }
    }
}

#[test]
fn a_frame_runs_every_phase_in_order() {
    let mut s = system();
    let (phases, result, wait_idle) = frame(&mut s, 0.5, |_| Event::Through);
    assert_eq!(phases.len(), 17);
    assert_eq!(phases[0], Phase::Overlay);
    assert_eq!(phases[16], Phase::Input);
    let place = |p: Phase| phases.iter().position(|q| *q == p).unwrap();
    assert!(place(Phase::Lifetimes) < place(Phase::Spawns));
    assert!(place(Phase::Despawns) < place(Phase::Transforms));
    assert!(place(Phase::Spawners) < place(Phase::Transforms));
    assert!(place(Phase::Transforms) < place(Phase::Draw));
    assert_eq!((result, wait_idle), (StepResult::Continue, false));
    assert_eq!(s.frame_count, 1);
}

#[test]
fn a_frame_ends_early_without_a_window_or_a_backend() {
    let mut s = system();
    let closed = |p: Phase| {
        if p == Phase::Overlay { Event::WindowClosed } else { Event::Through }
    };
    let (phases, result, wait_idle) = frame(&mut s, 0.0, closed);
    assert_eq!((phases.len(), result, wait_idle), (1, StepResult::Stop, true));
    let gone = |p: Phase| if p == Phase::Overlay { Event::NoBackend } else { Event::Through };
    let (_, result, wait_idle) = frame(&mut s, 0.0, gone);
    assert_eq!((result, wait_idle), (StepResult::Done, false));
    let lost = |p: Phase| if p == Phase::Draw { Event::DrawFailed } else { Event::Through };
    let (phases, result, wait_idle) = frame(&mut s, 0.0, lost);
    assert_eq!((phases.len(), result, wait_idle), (16, StepResult::Stop, true));
    assert_eq!(s.frame_count, 0);
}

#[test]
fn the_last_frame_asked_for_is_the_last() {
    let mut s = system();
    s.max_frames = Some(2);
    assert_eq!(frame(&mut s, 0.0, |_| Event::Through).1, StepResult::Continue);
    let (_, result, wait_idle) = frame(&mut s, 0.0, |_| Event::Through);
    assert_eq!((result, wait_idle), (StepResult::Done, true));
}

#[test]
fn a_failed_start_draws_nothing() {
    let mut s = system();
    s.fail();
    let (phases, result, _) = frame(&mut s, 1.0, |_| Event::Through);
    assert!(phases.is_empty());
    assert_eq!(result, StepResult::Done);
    assert_eq!(num(s.prev_elapsed), 0.0);
}

#[test]
fn the_frame_time_is_never_negative() {
    let mut s = system();
    assert_eq!(num(s.begin_step(bits(2.0), &minus).1), 2.0);
    assert_eq!(num(s.begin_step(bits(2.25), &minus).1), 0.25);
    assert_eq!(num(s.begin_step(bits(1.0), &minus).1), 0.0);
    assert_eq!(num(s.prev_elapsed), 1.0);
}

#[test]
fn the_cursor_is_captured_unless_a_menu_is_open() {
    let mut s = system();
    assert_eq!(s.camera_capture(false), None);
    s.menu_mode = true;
    assert_eq!(s.camera_capture(false), Some(true));
    assert_eq!(s.camera_capture(true), Some(false));
}

#[test]
fn pools_report_every_hundred_and_twentieth_frame() {
    let mut s = system();
    assert!(s.reports());
    s.frame_count = 119;
    assert!(!s.reports());
    s.frame_count = 240;
    assert!(s.reports());
}

#[test]
fn a_world_without_a_camera_has_a_default_view() {
    let v = camera_view(None);
    assert_eq!(num(v.fov_y_radians), std::f32::consts::FRAC_PI_4);
    assert_eq!((num(v.near), num(v.far)), (0.05, 200.0));
    assert_eq!(num(v.view[2][2]), 1.0);
    let own = CameraView { near: bits(0.5), ..v };
    assert_eq!(num(camera_view(Some(own)).near), 0.5);
}

#[test]
fn the_flat_normal_map_keeps_slot_zero() {
    assert_eq!(normal_map_slot(0), 1);
    assert_eq!(normal_map_slot(6), 7);
}

#[test]
fn the_viewport_is_empty_without_a_backend() {
    let mut s = system();
    let size = |b: &u32| (bits(*b as f32), bits(2.0));
    let of = |s: &GraphicsSystem<u32>| {
        let (w, h) = s.viewport_size(&size);
        (num(w), num(h))
    };
    assert_eq!(of(&s), (0.0, 0.0));
    s.backend = Some(640);
    assert_eq!(of(&s), (640.0, 2.0));
}

#[test]
fn reload_edits_the_backend_and_the_fog() {
    let mut s = system();
    assert!(s.hot_reload_apply_parts().is_none());
    s.backend = Some(1);
    s.world_reload = Some(WorldReloadState { texture_name_to_slot: HashMap::from([(4, 2)]) });
    {
        let parts = s.hot_reload_apply_parts().expect("a backend");
        assert_eq!(parts.world_reload.as_ref().unwrap().texture_name_to_slot[&4], 2);
        *parts.backend = 9;
        *parts.last_fog_settings = None;
    }
    assert_eq!(s.backend, Some(9));
}

fn sources() -> HotReloadSources {
    HotReloadSources {
        map: TextureSourceMap::new(),
        color_lut: None,
        environment_map: None,
        meshes: MeshSourceMap::new(),
        skinned_meshes: SkinnedMeshSourceMap::new(),
        procedural_meshes: ProceduralMeshSourceMap::new(),
        shader_stages: ShaderStageSourceMap::new(),
        world_jsonl_path: Some("world.jsonl".to_string()),
    }
}

#[test]
fn captured_sources_are_taken_once() {
    let mut s = system();
    assert!(s.take_hot_reload_sources().is_none());
    s.pending_hot_reload_sources = sources().keep_if_any(true);
    let taken = s.take_hot_reload_sources().expect("captured");
    assert_eq!(taken.world_jsonl_path, Some("world.jsonl".to_string()));
    assert!(s.take_hot_reload_sources().is_none());
}

#[test]
fn chunk_counts_are_given_while_chunks_stream() {
    let mut s = system();
    let stats = s.streaming_stats(Some((1, 2, 3)), None, None, (5, 6));
    assert_eq!(stats.texture, Some((1, 2, 3)));
    assert_eq!(stats.chunk, None);
    s.chunk_stream = Some(ChunkStreamState::new());
    assert_eq!(s.streaming_stats(None, None, None, (5, 6)).chunk, Some((5, 6)));
    assert!(StreamingStats::default().mesh.is_none());
}

fn raw() -> RenderInput {
    RenderInput {
        forward: true,
        sprint: true,
        interact: true,
        jump: true,
        mouse_dx: bits(3.0),
        mouse_dy: bits(-4.0),
        scroll_delta: bits(20.0),
        mouse_x: bits(100.0),
        mouse_y: bits(50.0),
        left_click: true,
        left_button_down: true,
        hud_toggle: true,
        escape: true,
        captured_key: Some(Key::Q),
        ..RenderInput::default()
    }
}

#[test]
fn input_reaches_the_world_while_no_menu_is_open() {
    let f = frame_input(&raw(), false, (bits(1280.0), bits(720.0)));
    assert!(f.play.forward && f.play.sprint && f.play.interact && f.play.jump);
    assert!(!f.play.backward && !f.play.left && !f.play.right);
    assert_eq!((num(f.play.mouse_dx), num(f.play.mouse_dy)), (3.0, -4.0));
    assert_eq!(num(f.viewport.1), 720.0);
}

#[test]
fn a_menu_freezes_the_player_but_not_itself() {
    let mut s = system();
    let f = s.take_input(&raw(), true, (bits(1.0), bits(1.0)));
    assert!(!f.play.forward && !f.play.jump && !f.play.interact && !f.play.sprint);
    assert_eq!((num(f.play.mouse_dx), num(f.play.mouse_dy)), (0.0, 0.0));
    assert_eq!(num(f.scroll_delta), 20.0);
    assert!(f.left_click && f.left_button_down && f.hud_toggle && f.escape);
    assert_eq!(f.captured_key, Some(Key::Q));
    // The pointer is kept for the next frame's cursor.
    assert_eq!((num(s.cursor_pos.0), num(s.cursor_pos.1)), (100.0, 50.0));
}

#[test]
fn frames_are_paced_under_the_cap() {
    let mut s = system();
    // No cap, no wait.
    assert_eq!(s.pace_frame(5, 30), 0);
    assert_eq!(s.next_frame_deadline, None);
    s.fps_cap = 100;
    assert_eq!(s.pace_frame(1_000, 30), 0);
    assert_eq!(s.next_frame_deadline, Some(10_001_000));
    // Early by two milliseconds.
    assert_eq!(s.pace_frame(8_001_000, 30), 2_000_000);
    assert_eq!(s.next_frame_deadline, Some(20_001_000));
    // Late: no wait, and no frame is made up for.
    assert_eq!(s.pace_frame(50_000_000, 30), 0);
    assert_eq!(s.next_frame_deadline, Some(60_000_000));
}

#[test]
fn an_open_menu_lowers_the_cap_one_frame_later() {
    let mut s = system();
    s.fps_cap = 100;
    s.pace_frame(0, 50);
    s.take_input(&raw(), true, (bits(1.0), bits(1.0)));
    assert!(s.menu_active_prev);
    assert_eq!(s.pace_frame(10_000_000, 50), 0);
    assert_eq!(s.next_frame_deadline, Some(30_000_000));
    // A cap below the menu's stays in force, and one is in force without any other.
    s.fps_cap = 20;
    s.pace_frame(30_000_000, 50);
    assert_eq!(s.next_frame_deadline, Some(80_000_000));
    s.fps_cap = 0;
    s.pace_frame(80_000_000, 50);
    assert_eq!(s.next_frame_deadline, Some(100_000_000));
    s.take_input(&raw(), false, (bits(1.0), bits(1.0)));
    assert_eq!(s.pace_frame(81_000_000, 50), 0);
    assert_eq!(s.next_frame_deadline, None);
    // A rate that does not divide a second is kept from below.
    s.fps_cap = 3;
    s.pace_frame(0, 50);
    assert_eq!(s.next_frame_deadline, Some(333_333_334));
    s.fail();
    assert_eq!(s.pace_frame(0, 50), 0);
    assert_eq!(s.next_frame_deadline, Some(333_333_334));
}
