use concinnity_gfx::float_bits::FloatBits;
use concinnity_gfx::graphics_system::{AssetDefaults, GraphicsSystem};
use concinnity_gfx::keymap::{Bindable, Key, KeyMap};
use concinnity_gfx::quality::{
    IndirectLighting, PostProcessConfig, QualityCeiling, QualityCycle, QualityToggle, Scale,
};
use concinnity_gfx::setting_rows::{Row, governed_rows, is_preset_row, shown_switch};
use concinnity_gfx::settings::{
    AppliedSliders, Declared, DeclaredPost, GraphicsConfig, PostProcessParams, PresetChoice,
    QualityPreset, RenderSettings, RowChange, SettingAction, Slider, UserSettings, WindowMode,
    is_on, starting_ambient, starting_preset,
};

fn bits(x: f32) -> FloatBits {
    FloatBits::new(x.to_bits())
}

fn config() -> PostProcessConfig {
    let z = bits(0.0);
    PostProcessConfig {
        ssao: true,
        ssr: true,
        ray_traced_reflections: false,
        indirect_lighting: IndirectLighting::Ssgi,
        auto_exposure: true,
        aa_mode: 2,
        ssgi_resolution: 0,
        ssgi_rays: 8,
        ssgi_steps: 16,
        reflection_blur_resolution: 0,
        upscale_quality: 1,
        upscale_backend: 2,
        hdr_display: true,
        hdr_pq: false,
        temporal_upscaling: true,
        occlusion_two_pass: true,
        exposure_ev: z,
        ssao_radius: bits(0.5),
        ssao_intensity: bits(1.0),
        ssr_intensity: bits(1.0),
        ssr_max_distance: bits(30.0),
        ssgi_intensity: bits(1.0),
        ssgi_max_distance: bits(20.0),
        auto_exposure_min_ev: bits(-4.0),
        auto_exposure_max_ev: bits(4.0),
        auto_exposure_speed: bits(1.5),
    }
}

fn params() -> PostProcessParams {
    PostProcessParams {
        exposure: bits(1.0),
        bloom_intensity: bits(0.5),
        bloom_threshold: bits(1.0),
        bloom_knee: bits(0.25),
        vignette: bits(0.0),
        lut_strength: bits(1.0),
    }
}

fn live() -> RenderSettings {
    RenderSettings {
        window_mode: WindowMode::Windowed,
        window_width: 1280,
        window_height: 720,
        vsync: false,
        render_scale: 0,
        frames_in_flight: 2,
        shadow_map_size: 2048,
        shadow_update: 0,
        shadow_distance: 80,
        shadow_cascades: 4,
        anisotropy: 8,
        upscale_backend: 0,
        temporal_upscaling: false,
        hdr_display: false,
        hdr_pq: false,
        occlusion_two_pass: false,
        texture_cap: 96,
        texture_budget: 4,
        quality_preset: QualityPreset::Auto,
        post_process: params(),
        post_config: config(),
        ambient_intensity: bits(1.0),
        keymap: KeyMap::default(),
        authored_post_config: config(),
        authored_shadow_map_size: 2048,
        authored_shadow_update: 0,
        authored_shadow_distance: 80,
        authored_shadow_cascades: 4,
        authored_anisotropy: 8,
    }
}

fn nothing_stored() -> UserSettings {
    UserSettings {
        window_mode: None,
        window_size: None,
        vsync: None,
        render_scale: None,
        quality_preset: None,
        taa: None,
        ssao: None,
        ssr: None,
        ray_traced_reflections: None,
        ssgi: None,
        auto_exposure: None,
        ssgi_resolution: None,
        ssgi_rays: None,
        ssgi_steps: None,
        reflection_blur_resolution: None,
        shadow_map_size: None,
        shadow_update: None,
        shadow_distance: None,
        shadow_cascades: None,
        anisotropy: None,
        upscale_backend: None,
        temporal_upscaling: None,
        hdr_display: None,
        hdr_pq: None,
        frames_in_flight: None,
        occlusion_two_pass: None,
        texture_cap: None,
        texture_budget: None,
        exposure_ev: None,
        bloom_intensity: None,
        bloom_threshold: None,
        bloom_knee: None,
        vignette: None,
        lut_strength: None,
        ambient_intensity: None,
        ssao_radius: None,
        ssao_intensity: None,
        ssr_intensity: None,
        ssr_max_distance: None,
        ssgi_intensity: None,
        ssgi_max_distance: None,
        auto_exposure_min_ev: None,
        auto_exposure_max_ev: None,
        auto_exposure_speed: None,
        mouse_sensitivity: None,
        master_volume: None,
        keymap: None,
    }
}

fn nothing_applied() -> AppliedSliders {
    AppliedSliders {
        exposure: None,
        bloom_intensity: None,
        bloom_threshold: None,
        bloom_knee: None,
        vignette: None,
        lut_strength: None,
        ambient_intensity: bits(1.0),
        ssao_radius: None,
        ssao_intensity: None,
        ssr_intensity: None,
        ssr_max_distance: None,
        ssgi_intensity: None,
        ssgi_max_distance: None,
        auto_exposure_min_ev: None,
        auto_exposure_max_ev: None,
        auto_exposure_speed: None,
    }
}

fn unlimited() -> QualityCeiling {
    QualityCeiling {
        taa: true,
        ssao: true,
        ssr: true,
        ray_traced_reflections: true,
        ssgi: true,
        auto_exposure: true,
        ssgi_rays: 64,
        ssgi_steps: 64,
        shadow_distance: u32::MAX,
        shadow_cascades: 4,
        anisotropy: 16,
        aa_mode: 9,
        ssgi_resolution: 0,
        reflection_blur_resolution: 0,
        min_upscale: 0,
        shadow_map_size: u32::MAX,
        shadow_update: 0,
    }
}

fn low() -> QualityCeiling {
    QualityCeiling {
        taa: false,
        ssao: true,
        ssr: false,
        ray_traced_reflections: false,
        ssgi: false,
        auto_exposure: true,
        ssgi_rays: 2,
        ssgi_steps: 32,
        shadow_distance: 50,
        shadow_cascades: 2,
        anisotropy: 4,
        aa_mode: 1,
        ssgi_resolution: 1,
        reflection_blur_resolution: 2,
        min_upscale: 2,
        shadow_map_size: 1024,
        shadow_update: 2,
    }
}

/// Fewer samples and smaller maps are coarser, and so are the later options of the rest.
fn coarser(scale: Scale, value: u32, finest: u32) -> u32 {
    match scale {
        Scale::AaMode | Scale::ShadowMapSize => value.min(finest),
        _ => value.max(finest),
    }
}

fn preset(preset: QualityPreset, ceiling: QualityCeiling) -> PresetChoice {
    PresetChoice { preset, ceiling }
}

fn knobs() -> Vec<QualityCycle> {
    vec![
        QualityCycle::AaMode,
        QualityCycle::SsgiResolution,
        QualityCycle::SsgiRays,
        QualityCycle::SsgiSteps,
        QualityCycle::ReflectionBlurResolution,
    ]
}

fn undeclared() -> Declared {
    Declared { window: None, graphics: None, post: None, streaming: None }
}

fn declared() -> Declared {
    Declared {
        window: Some((WindowMode::Borderless, 1920, 1080)),
        graphics: Some(GraphicsConfig {
            frames_in_flight: 3,
            vsync: true,
            clear_color: [bits(0.1), bits(0.2), bits(0.3), bits(1.0)],
            max_frames: Some(10),
            fps_cap: 60,
            shadow_map_size: 4096,
            shadow_update: 1,
            shadow_distance: 120,
            shadow_cascades: 3,
            anisotropy: 16,
        }),
        post: Some(DeclaredPost {
            config: config(),
            params: PostProcessParams { vignette: bits(0.3), ..params() },
            ambient_intensity: bits(0.8),
        }),
        streaming: Some((48, 2)),
    }
}

#[test]
fn the_second_option_of_a_switch_is_on() {
    assert!(!is_on(0));
    assert!(is_on(1));
    assert!(!is_on(2));
}

#[test]
fn vsync_applies_and_is_stored() {
    let (mut s, mut u) = (live(), nothing_stored());
    let told = s.change_row(&mut u, RowChange::Vsync(true));
    assert!(s.vsync);
    assert_eq!(u.vsync, Some(true));
    assert_eq!(told, vec![SettingAction::SetVsync(true)]);
    assert_eq!(s.quality_preset, QualityPreset::Auto);
    assert_eq!(u.quality_preset, None);
}

#[test]
fn the_windowed_size_comes_back_with_the_window() {
    let (mut s, mut u) = (live(), nothing_stored());
    assert_eq!(
        s.change_row(&mut u, RowChange::WindowMode(WindowMode::Fullscreen)),
        vec![SettingAction::SetWindowMode(WindowMode::Fullscreen)]
    );
    assert_eq!(s.change_row(&mut u, RowChange::WindowSize(800, 600)), vec![]);
    assert_eq!((s.window_width, s.window_height), (800, 600));
    assert_eq!(u.window_size, Some((800, 600)));
    assert_eq!(
        s.change_row(&mut u, RowChange::WindowMode(WindowMode::Windowed)),
        vec![
            SettingAction::SetWindowMode(WindowMode::Windowed),
            SettingAction::SetWindowSize(800, 600),
        ]
    );
    assert_eq!(
        s.change_row(&mut u, RowChange::WindowSize(640, 480)),
        vec![SettingAction::SetWindowSize(640, 480)]
    );
}

#[test]
fn governed_rows_opt_out_of_the_preset() {
    for change in [
        RowChange::RenderScale(3),
        RowChange::Toggle(QualityToggle::Ssao, false),
        RowChange::Cycle(QualityCycle::SsgiRays, 4),
        RowChange::ShadowMapSize(512),
        RowChange::ShadowUpdate(1),
    ] {
        let (mut s, mut u) = (live(), nothing_stored());
        let told = s.change_row(&mut u, change);
        assert_eq!(s.quality_preset, QualityPreset::Custom);
        assert_eq!(u.quality_preset, Some(QualityPreset::Custom));
        assert!(told.contains(&SettingAction::RelabelPreset));
    }
    for change in [
        RowChange::HdrDisplay(true),
        RowChange::HdrPq(true),
        RowChange::TemporalUpscaling(true),
        RowChange::FramesInFlight(1),
        RowChange::OcclusionTwoPass(true),
        RowChange::TextureQuality(32, 1),
    ] {
        let (mut s, mut u) = (live(), nothing_stored());
        assert_eq!(s.change_row(&mut u, change), vec![]);
        assert_eq!(s.quality_preset, QualityPreset::Auto);
        assert_eq!(u.quality_preset, None);
    }
}

#[test]
fn turning_auto_exposure_off_puts_the_exposure_back() {
    let (mut s, mut u) = (live(), nothing_stored());
    let told = s.change_row(&mut u, RowChange::Toggle(QualityToggle::AutoExposure, false));
    assert_eq!(
        told,
        vec![
            SettingAction::RelabelPreset,
            SettingAction::ApplyQuality(s.post_config),
            SettingAction::UpdatePostProcess(s.post_process),
        ]
    );
    assert!(!s.post_config.auto_exposure);
    assert_eq!(u.auto_exposure, Some(false));
}

#[test]
fn the_volume_is_handed_on() {
    let (mut s, mut u) = (live(), nothing_stored());
    let told = s.change_row(&mut u, RowChange::MasterVolume(bits(0.5)));
    assert_eq!(told, vec![SettingAction::SendMasterVolume(bits(0.5))]);
    assert_eq!(u.master_volume, Some(bits(0.5)));
    assert_eq!(s, live());
}

#[test]
fn slider_keys() {
    assert_eq!(Slider::from_key("exposure"), Some(Slider::Exposure));
    assert_eq!(Slider::from_key("auto_exposure_speed"), Some(Slider::AutoExposureSpeed));
    assert_eq!(Slider::from_key("mouse_sensitivity"), Some(Slider::MouseSensitivity));
    assert_eq!(Slider::from_key("master_volume"), None);
    assert_eq!(Slider::from_key(""), None);
}

#[test]
fn a_slider_reads_back_what_it_was_moved_to() {
    let (mut s, mut u) = (live(), nothing_stored());
    let told = s.slide(&mut u, Slider::Exposure, bits(1.0), bits(2.0), false, false);
    assert_eq!(s.slider_current_value(Slider::Exposure), Some(bits(2.0)));
    assert_eq!(s.slider_current_value(Slider::Vignette), Some(bits(0.0)));
    assert_eq!(told, vec![SettingAction::UpdatePostProcess(s.post_process)]);
    assert_eq!(u.exposure_ev, None);
    s.slide(&mut u, Slider::Exposure, bits(1.0), bits(2.0), false, true);
    assert_eq!(u.exposure_ev, Some(bits(1.0)));
}

#[test]
fn sliders_tell_what_they_drive() {
    let (mut s, mut u) = (live(), nothing_stored());
    assert_eq!(
        s.slide(&mut u, Slider::SsaoRadius, bits(0.7), bits(0.7), true, false),
        vec![SettingAction::UpdateQualityParams(s.post_config)]
    );
    assert_eq!(
        s.slide(&mut u, Slider::AmbientIntensity, bits(0.4), bits(0.4), false, false),
        vec![
            SettingAction::UpdatePostProcess(s.post_process),
            SettingAction::SetAmbient(bits(0.4)),
        ]
    );
    assert_eq!(
        s.slide(&mut u, Slider::MouseSensitivity, bits(0.4), bits(0.002), false, true),
        vec![SettingAction::SendMouseSensitivity(bits(0.002))]
    );
    assert_eq!(u.mouse_sensitivity, Some(bits(0.002)));
    assert_eq!(s.slider_current_value(Slider::MouseSensitivity), None);
}

#[test]
fn a_preset_clamps_what_the_world_asks_for() {
    let (mut s, mut u) = (live(), nothing_stored());
    s.change_row(&mut u, RowChange::Toggle(QualityToggle::Ssao, false));
    s.change_row(&mut u, RowChange::Cycle(QualityCycle::SsgiRays, 1));
    let told = s.pick_preset(&mut u, &preset(QualityPreset::Tier(1), low()), &knobs(), &coarser);
    assert_eq!(s.quality_preset, QualityPreset::Tier(1));
    assert!(s.post_config.ssao);
    assert!(!s.post_config.ssr);
    assert_eq!(s.post_config.indirect_lighting, IndirectLighting::Ibl);
    assert!(s.post_config.auto_exposure);
    assert_eq!(s.post_config.aa_mode, 1);
    assert_eq!((s.post_config.ssgi_rays, s.post_config.ssgi_steps), (2, 16));
    assert_eq!(s.post_config.ssgi_resolution, 1);
    assert_eq!(s.post_config.reflection_blur_resolution, 2);
    assert_eq!((s.render_scale, s.shadow_map_size, s.shadow_update), (2, 1024, 2));
    assert_eq!(u.quality_preset, Some(QualityPreset::Tier(1)));
    assert_eq!((u.ssao, u.ssgi_rays), (None, None));
    assert_eq!(
        told,
        vec![
            SettingAction::ApplyQuality(s.post_config),
            SettingAction::UpdatePostProcess(s.post_process),
            SettingAction::SetShadowUpdate(2),
            SettingAction::SetShadowDistance(50),
            SettingAction::SetShadowCascades(2),
        ]
    );
    assert_eq!((s.shadow_distance, s.shadow_cascades, s.anisotropy), (50, 2, 4));
    // Raising the preset again restores what the world asks for.
    s.pick_preset(&mut u, &preset(QualityPreset::Custom, unlimited()), &knobs(), &coarser);
    assert_eq!(s.post_config, config());
    assert_eq!((s.shadow_distance, s.shadow_cascades, s.anisotropy), (80, 4, 8));
}

#[test]
fn a_preset_undoes_rows_and_is_idempotent() {
    let choice = preset(QualityPreset::Tier(2), low());
    let (mut once, mut u) = (live(), nothing_stored());
    once.pick_preset(&mut u, &choice, &knobs(), &coarser);
    let (mut twice, mut v) = (once, u);
    twice.pick_preset(&mut v, &choice, &knobs(), &coarser);
    assert_eq!((once, u), (twice, v));
    let (mut other, mut w) = (live(), nothing_stored());
    other.change_row(&mut w, RowChange::ShadowMapSize(256));
    other.change_row(&mut w, RowChange::ShadowDistance(500));
    other.change_row(&mut w, RowChange::ShadowCascades(1));
    other.change_row(&mut w, RowChange::Anisotropy(1));
    other.change_row(&mut w, RowChange::Toggle(QualityToggle::Ssr, false));
    other.pick_preset(&mut w, &choice, &knobs(), &coarser);
    assert_eq!((once, u), (other, w));
}

#[test]
fn rebinding_swaps_with_the_holder() {
    let (mut s, mut u) = (live(), nothing_stored());
    let before = s.keymap;
    let (victim, told) = s.rebind_key(&mut u, Bindable::Forward, before.jump);
    assert_eq!(victim, Some(Bindable::Jump));
    assert_eq!(s.keymap.forward, before.jump);
    assert_eq!(s.keymap.jump, before.forward);
    assert_eq!(u.keymap, Some(s.keymap));
    assert_eq!(told, SettingAction::SetKeymap(s.keymap));
    let (victim, _) = s.rebind_key(&mut u, Bindable::Forward, before.jump);
    assert_eq!(victim, None);
    let (victim, _) = s.rebind_key(&mut u, Bindable::Forward, Key::Z);
    assert_eq!(victim, None);
    assert_eq!(s.keymap.forward, Key::Z);
}

#[test]
fn nothing_declared_keeps_the_defaults_under_the_ceiling() {
    let mut s = live();
    let stored = nothing_stored();
    s.resolve(&undeclared(), &nothing_applied(), &stored, &unlimited(), &knobs(), &coarser);
    assert_eq!(s, RenderSettings { render_scale: 1, ..live() });
    // Stored toggles mean nothing without a declared configuration.
    let mut s = live();
    let user = UserSettings { ssao: Some(false), hdr_pq: Some(true), ..nothing_stored() };
    s.resolve(&undeclared(), &nothing_applied(), &user, &unlimited(), &knobs(), &coarser);
    assert!(s.post_config.ssao);
    assert!(s.hdr_pq);
}

#[test]
fn what_the_world_declares_overrides_the_defaults() {
    let mut s = live();
    let stored = nothing_stored();
    s.resolve(&declared(), &nothing_applied(), &stored, &unlimited(), &knobs(), &coarser);
    assert_eq!(s.window_mode, WindowMode::Borderless);
    assert_eq!((s.window_width, s.window_height), (1920, 1080));
    assert_eq!((s.vsync, s.frames_in_flight), (true, 3));
    assert_eq!((s.authored_shadow_map_size, s.authored_shadow_update), (4096, 1));
    assert_eq!((s.shadow_distance, s.shadow_cascades, s.anisotropy), (120, 3, 16));
    assert_eq!(s.authored_shadow_distance, 120);
    assert_eq!((s.authored_shadow_cascades, s.authored_anisotropy), (3, 16));
    assert_eq!(s.upscale_backend, 2);
    assert_eq!((s.texture_cap, s.texture_budget), (48, 2));
    assert_eq!(s.post_process.vignette, bits(0.3));
    assert!(s.hdr_display && !s.hdr_pq && s.temporal_upscaling && s.occlusion_two_pass);
    assert_eq!(s.authored_post_config, config());
}

#[test]
fn what_the_user_stored_overrides_the_world() {
    let user = UserSettings {
        window_mode: Some(WindowMode::Fullscreen),
        window_size: Some((640, 480)),
        vsync: Some(false),
        render_scale: Some(4),
        quality_preset: Some(QualityPreset::Tier(3)),
        ssr: Some(true),
        ssgi: Some(true),
        ssgi_rays: Some(12),
        shadow_map_size: Some(512),
        anisotropy: Some(12),
        upscale_backend: Some(5),
        hdr_display: Some(false),
        frames_in_flight: Some(1),
        texture_cap: Some(16),
        texture_budget: Some(1),
        keymap: Some(KeyMap { forward: Key::Z, ..KeyMap::default() }),
        ..nothing_stored()
    };
    let applied = AppliedSliders {
        exposure: Some(bits(2.0)),
        ssao_radius: Some(bits(0.9)),
        ambient_intensity: bits(0.3),
        ..nothing_applied()
    };
    let mut s = live();
    s.resolve(&declared(), &applied, &user, &low(), &knobs(), &coarser);
    assert_eq!(s.window_mode, WindowMode::Fullscreen);
    assert_eq!((s.window_width, s.window_height), (640, 480));
    assert!(!s.vsync && !s.hdr_display);
    assert_eq!((s.render_scale, s.shadow_map_size, s.shadow_update), (4, 512, 2));
    assert_eq!((s.shadow_distance, s.shadow_cascades, s.anisotropy), (50, 2, 12));
    assert_eq!(s.upscale_backend, 5);
    assert_eq!(s.frames_in_flight, 1);
    assert_eq!((s.texture_cap, s.texture_budget), (16, 1));
    assert_eq!(s.quality_preset, QualityPreset::Tier(3));
    // What the user stored is not clamped; everything else is.
    assert!(s.post_config.ssr);
    assert_eq!(s.post_config.indirect_lighting, IndirectLighting::Ssgi);
    assert_eq!((s.post_config.ssgi_rays, s.post_config.ssgi_resolution), (12, 1));
    assert_eq!(s.post_process.exposure, bits(2.0));
    assert_eq!(s.post_config.ssao_radius, bits(0.9));
    assert_eq!(s.ambient_intensity, bits(0.3));
    assert_eq!(s.keymap.forward, Key::Z);
    assert_eq!(s.authored_post_config, config());
}

#[test]
fn rows_survive_a_restart() {
    let (mut now, mut user) = (live(), nothing_stored());
    for change in [
        RowChange::Vsync(false),
        RowChange::WindowSize(333, 222),
        RowChange::Toggle(QualityToggle::Ssr, true),
        RowChange::Toggle(QualityToggle::Ssgi, true),
        RowChange::Cycle(QualityCycle::SsgiSteps, 48),
        RowChange::ShadowMapSize(128),
        RowChange::ShadowUpdate(3),
        RowChange::ShadowDistance(200),
        RowChange::ShadowCascades(3),
        RowChange::Anisotropy(16),
        RowChange::UpscaleBackend(1),
        RowChange::OcclusionTwoPass(false),
        RowChange::TextureQuality(12, 3),
        RowChange::FramesInFlight(1),
    ] {
        now.change_row(&mut user, change);
    }
    let mut next = live();
    next.resolve(&declared(), &nothing_applied(), &user, &low(), &knobs(), &coarser);
    assert_eq!(next.vsync, now.vsync);
    assert_eq!((next.window_width, next.window_height), (333, 222));
    assert_eq!(next.post_config.ssr, now.post_config.ssr);
    assert_eq!(next.post_config.indirect_lighting, now.post_config.indirect_lighting);
    assert_eq!(next.post_config.ssgi_steps, 48);
    assert_eq!((next.shadow_map_size, next.shadow_update), (128, 3));
    assert_eq!((next.shadow_distance, next.shadow_cascades, next.anisotropy), (200, 3, 16));
    assert_eq!(next.upscale_backend, 1);
    assert_eq!(next.occlusion_two_pass, now.occlusion_two_pass);
    assert_eq!((next.texture_cap, next.texture_budget), (12, 3));
    assert_eq!(next.frames_in_flight, 1);
    assert_eq!(next.quality_preset, QualityPreset::Custom);
}

#[test]
fn a_slider_survives_a_restart() {
    let (mut now, mut user) = (live(), nothing_stored());
    now.slide(&mut user, Slider::SsrMaxDistance, bits(55.0), bits(55.0), true, true);
    assert_eq!(user.ssr_max_distance, Some(bits(55.0)));
    let applied =
        AppliedSliders { ssr_max_distance: user.ssr_max_distance, ..nothing_applied() };
    let mut next = live();
    next.resolve(&declared(), &applied, &user, &unlimited(), &knobs(), &coarser);
    assert_eq!(
        next.slider_current_value(Slider::SsrMaxDistance),
        now.slider_current_value(Slider::SsrMaxDistance)
    );
}

#[test]
fn a_preset_survives_a_restart() {
    let choice = preset(QualityPreset::Tier(1), low());
    let (mut now, mut user) = (live(), nothing_stored());
    now.change_row(&mut user, RowChange::Toggle(QualityToggle::Ssr, false));
    now.pick_preset(&mut user, &choice, &knobs(), &coarser);
    assert_eq!(starting_preset(&user), QualityPreset::Tier(1));
    let mut next = live();
    next.resolve(&declared(), &nothing_applied(), &user, &choice.ceiling, &knobs(), &coarser);
    assert_eq!(next.quality_preset, now.quality_preset);
    assert_eq!(next.post_config, now.post_config);
    assert_eq!(next.render_scale, now.render_scale);
    assert_eq!((next.shadow_map_size, next.shadow_update), (now.shadow_map_size, now.shadow_update));
}

#[test]
fn the_first_launch_lets_the_gpu_choose() {
    assert_eq!(starting_preset(&nothing_stored()), QualityPreset::Auto);
}

#[test]
fn the_starting_ambient_light() {
    let post = declared().post;
    assert_eq!(starting_ambient(&nothing_stored(), None), bits(1.0));
    assert_eq!(starting_ambient(&nothing_stored(), post), bits(0.8));
    let user = UserSettings { ambient_intensity: Some(bits(0.1)), ..nothing_stored() };
    assert_eq!(starting_ambient(&user, post), bits(0.1));
}

#[test]
fn the_driver_takes_up_what_is_declared() {
    let defaults = AssetDefaults {
        window_mode: WindowMode::Windowed,
        window_width: 1280,
        window_height: 720,
        shadow_update: 0,
        render_scale: 0,
        upscale_backend: 7,
        post_process: params(),
        post_config: config(),
    };
    let stored = nothing_stored();
    let mut g: GraphicsSystem<u32> = GraphicsSystem::new(&defaults);
    g.configure(&undeclared(), &nothing_applied(), &stored, &unlimited(), &knobs(), &coarser);
    assert_eq!(g.settings.upscale_backend, 7);
    assert_eq!((g.max_frames, g.fps_cap, g.settings.shadow_distance), (None, 0, 80));
    g.configure(&declared(), &nothing_applied(), &stored, &unlimited(), &knobs(), &coarser);
    assert_eq!(g.settings.upscale_backend, 2);
    assert_eq!(g.clear_color, [bits(0.1), bits(0.2), bits(0.3), bits(1.0)]);
    assert_eq!((g.max_frames, g.fps_cap), (Some(10), 60));
    assert_eq!(g.settings.vsync, true);
}

#[test]
fn every_row_has_its_own_setting() {
    let rows = [
        Row::Vsync,
        Row::WindowMode,
        Row::WindowSize,
        Row::RenderScale,
        Row::MasterVolume,
        Row::Toggle(QualityToggle::Taa),
        Row::Toggle(QualityToggle::RayTracedReflections),
        Row::Cycle(QualityCycle::AaMode),
        Row::Cycle(QualityCycle::SsgiSteps),
        Row::TemporalUpscaling,
        Row::HdrDisplay,
        Row::HdrPq,
        Row::ShadowMapSize,
        Row::ShadowUpdate,
        Row::ShadowDistance,
        Row::ShadowCascades,
        Row::Anisotropy,
        Row::UpscaleBackend,
        Row::FramesInFlight,
        Row::OcclusionTwoPass,
        Row::TextureQuality,
    ];
    for row in rows {
        assert_eq!(Row::from_key(row.key()), Some(row));
    }
    assert_eq!(Row::from_key("ssgi_rays"), Some(Row::Cycle(QualityCycle::SsgiRays)));
    assert_eq!(Row::from_key("window_size"), Some(Row::WindowSize));
    assert_eq!(Row::from_key("graphics_quality"), None);
    assert!(is_preset_row("graphics_quality") && !is_preset_row("render_scale"));
    assert_eq!(Row::from_key("exposure"), None);
    assert_eq!(Row::from_key(""), None);
}

#[test]
fn a_two_state_row_shows_what_it_was_switched_to() {
    let mut s = live();
    let mut u = nothing_stored();
    for row in [Row::Vsync, Row::HdrPq, Row::Toggle(QualityToggle::Ssgi), Row::OcclusionTwoPass] {
        for option in [1, 0, 1] {
            let change = row.switch_to(option).unwrap();
            s.change_row(&mut u, change);
            assert_eq!(shown_switch(&s, row), Some(option));
        }
    }
    assert_eq!(u.vsync, Some(true));
    assert_eq!(u.ssgi, Some(true));
    assert_eq!(Row::Vsync.switch_to(2), Some(RowChange::Vsync(false)));
    // The configuration has no switch for this one.
    assert_eq!(shown_switch(&s, Row::Toggle(QualityToggle::Taa)), Some(0));
    // Rows whose options hold values are not switched.
    assert_eq!(shown_switch(&s, Row::WindowMode), None);
    assert_eq!(Row::TextureQuality.switch_to(1), None);
}

#[test]
fn picking_a_preset_shows_its_rows_anew() {
    let rows = governed_rows(&vec![QualityCycle::SsgiRays, QualityCycle::AaMode]);
    assert_eq!(rows.len(), 14);
    assert_eq!(rows[0], Row::Toggle(QualityToggle::Taa));
    assert_eq!(rows[5], Row::Toggle(QualityToggle::AutoExposure));
    assert_eq!(
        rows[6..],
        [
            Row::RenderScale,
            Row::Cycle(QualityCycle::SsgiRays),
            Row::Cycle(QualityCycle::AaMode),
            Row::ShadowMapSize,
            Row::ShadowUpdate,
            Row::ShadowDistance,
            Row::ShadowCascades,
            Row::Anisotropy,
        ]
    );
}

#[test]
fn shadow_rows_apply_live_and_opt_out_of_the_preset() {
    let (mut s, mut u) = (live(), nothing_stored());
    let told = s.change_row(&mut u, RowChange::ShadowDistance(150));
    assert_eq!(
        told,
        vec![SettingAction::SetShadowDistance(150), SettingAction::RelabelPreset]
    );
    assert_eq!((s.shadow_distance, u.shadow_distance), (150, Some(150)));
    assert_eq!(s.quality_preset, QualityPreset::Custom);
    let told = s.change_row(&mut u, RowChange::ShadowCascades(1));
    assert_eq!(told, vec![SettingAction::SetShadowCascades(1), SettingAction::RelabelPreset]);
    // The sampler and the upscaler are built at the start.
    let told = s.change_row(&mut u, RowChange::Anisotropy(2));
    assert_eq!(told, vec![SettingAction::RelabelPreset]);
    let (mut t, mut v) = (live(), nothing_stored());
    assert!(t.change_row(&mut v, RowChange::UpscaleBackend(4)).is_empty());
    assert_eq!((t.upscale_backend, v.upscale_backend), (4, Some(4)));
    assert_eq!(t.quality_preset, QualityPreset::Auto);
    // None of them changes what the world asks for.
    assert_eq!((s.authored_shadow_distance, s.authored_anisotropy), (80, 8));
}
