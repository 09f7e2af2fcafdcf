//! The live graphics settings and the changes the settings menu makes to them: what
//! each change sets, what is stored for the next launch, and what the backend is told.

use crate::float_bits::FloatBits;
use crate::keymap::{Bindable, Key, KeyMap, default_keymap, rebound};
use crate::quality::{
    Governed, PostProcessConfig, QualityCeiling, QualityCycle, QualityToggle, Scale, always_same,
    govern, is_governed, knob, law_governed_is_unique, law_knob_reads_back,
    law_toggle_reads_back, set_quality_cycle, set_toggle, toggle_state, with_knob, with_toggle,
};
use crate::text::same_text;
use vstd::prelude::*;

verus! {

/// How the window is shown.
#[derive(Debug, Clone, Copy, PartialEq, Eq, Structural)]
pub enum WindowMode {
    Windowed,
    Borderless,
    Fullscreen,
}

/// The master quality preset.
#[derive(Debug, Clone, Copy, PartialEq, Eq, Structural)]
pub enum QualityPreset {
    /// Chosen by the GPU.
    Auto,
    /// A performance tier.
    Tier(u32),
    /// Individual choices; no ceiling.
    Custom,
}

/// The post-process parameters that sliders drive.
#[derive(Debug, Clone, Copy, PartialEq, Eq, Structural)]
pub struct PostProcessParams {
    pub exposure: FloatBits,
    pub bloom_intensity: FloatBits,
    pub bloom_threshold: FloatBits,
    pub bloom_knee: FloatBits,
    pub vignette: FloatBits,
    pub lut_strength: FloatBits,
}

/// The live settings. Enumerated values are held as the number their option table
/// gives them.
#[derive(Debug, Clone, Copy, PartialEq, Eq, Structural)]
pub struct RenderSettings {
    pub window_mode: WindowMode,
    pub window_width: u32,
    pub window_height: u32,
    pub vsync: bool,
    pub render_scale: u32,
    pub frames_in_flight: usize,
    pub shadow_map_size: u32,
    pub shadow_update: u32,
    /// The far end of the last cascade, in world units.
    pub shadow_distance: u32,
    pub shadow_cascades: u32,
    /// The most anisotropy that the scene's sampler takes.
    pub anisotropy: u32,
    pub upscale_backend: u32,
    pub temporal_upscaling: bool,
    pub hdr_display: bool,
    pub hdr_pq: bool,
    pub occlusion_two_pass: bool,
    pub texture_cap: u32,
    pub texture_budget: u32,
    pub quality_preset: QualityPreset,
    pub post_process: PostProcessParams,
    pub post_config: PostProcessConfig,
    pub ambient_intensity: FloatBits,
    pub keymap: KeyMap,
    /// What the world asks for, before the user's choices and any ceiling.
    pub authored_post_config: PostProcessConfig,
    pub authored_shadow_map_size: u32,
    pub authored_shadow_update: u32,
    pub authored_shadow_distance: u32,
    pub authored_shadow_cascades: u32,
    pub authored_anisotropy: u32,
}

/// What is stored for the next launch; none where the user never chose.
#[derive(Debug, Clone, Copy, PartialEq, Eq)]
pub struct UserSettings {
    pub window_mode: Option<WindowMode>,
    pub window_size: Option<(u32, u32)>,
    pub vsync: Option<bool>,
    pub render_scale: Option<u32>,
    pub quality_preset: Option<QualityPreset>,
    pub taa: Option<bool>,
    pub ssao: Option<bool>,
    pub ssr: Option<bool>,
    pub ray_traced_reflections: Option<bool>,
    pub ssgi: Option<bool>,
    pub auto_exposure: Option<bool>,
    pub ssgi_resolution: Option<u32>,
    pub ssgi_rays: Option<u32>,
    pub ssgi_steps: Option<u32>,
    pub reflection_blur_resolution: Option<u32>,
    pub shadow_map_size: Option<u32>,
    pub shadow_update: Option<u32>,
    pub shadow_distance: Option<u32>,
    pub shadow_cascades: Option<u32>,
    pub anisotropy: Option<u32>,
    pub upscale_backend: Option<u32>,
    pub temporal_upscaling: Option<bool>,
    pub hdr_display: Option<bool>,
    pub hdr_pq: Option<bool>,
    pub frames_in_flight: Option<u32>,
    pub occlusion_two_pass: Option<bool>,
    pub texture_cap: Option<u32>,
    pub texture_budget: Option<u32>,
    pub exposure_ev: Option<FloatBits>,
    pub bloom_intensity: Option<FloatBits>,
    pub bloom_threshold: Option<FloatBits>,
    pub bloom_knee: Option<FloatBits>,
    pub vignette: Option<FloatBits>,
    pub lut_strength: Option<FloatBits>,
    pub ambient_intensity: Option<FloatBits>,
    pub ssao_radius: Option<FloatBits>,
    pub ssao_intensity: Option<FloatBits>,
    pub ssr_intensity: Option<FloatBits>,
    pub ssr_max_distance: Option<FloatBits>,
    pub ssgi_intensity: Option<FloatBits>,
    pub ssgi_max_distance: Option<FloatBits>,
    pub auto_exposure_min_ev: Option<FloatBits>,
    pub auto_exposure_max_ev: Option<FloatBits>,
    pub auto_exposure_speed: Option<FloatBits>,
    pub mouse_sensitivity: Option<FloatBits>,
    pub master_volume: Option<FloatBits>,
    pub keymap: Option<KeyMap>,
}

/// What the backend, or another system, is told of a change.
#[derive(Debug, Clone, Copy, PartialEq, Eq)]
pub enum SettingAction {
    SetVsync(bool),
    SetWindowMode(WindowMode),
    SetWindowSize(u32, u32),
    SetShadowUpdate(u32),
    SetShadowDistance(u32),
    SetShadowCascades(u32),
    SetAmbient(FloatBits),
    SetKeymap(KeyMap),
    /// Rebuild the quality features from the configuration.
    ApplyQuality(PostProcessConfig),
    /// Change a quality feature's parameters without a rebuild.
    UpdateQualityParams(PostProcessConfig),
    UpdatePostProcess(PostProcessParams),
    /// Tell the camera the new sensitivity.
    SendMouseSensitivity(FloatBits),
    /// Tell the audio system the new gain.
    SendMasterVolume(FloatBits),
    /// Show the master preset's name in its row.
    RelabelPreset,
}

/// A change of a cycle row, with the value its option table gives.
#[derive(Debug, Clone, Copy, PartialEq, Eq)]
pub enum RowChange {
    Vsync(bool),
    WindowMode(WindowMode),
    WindowSize(u32, u32),
    RenderScale(u32),
    MasterVolume(FloatBits),
    Toggle(QualityToggle, bool),
    Cycle(QualityCycle, u32),
    TemporalUpscaling(bool),
    HdrDisplay(bool),
    HdrPq(bool),
    ShadowMapSize(u32),
    ShadowUpdate(u32),
    ShadowDistance(u32),
    ShadowCascades(u32),
    Anisotropy(u32),
    UpscaleBackend(u32),
    FramesInFlight(u32),
    OcclusionTwoPass(bool),
    /// The streaming pool's cap and its per-frame upload budget.
    TextureQuality(u32, u32),
}

/// A choice of an on/off row: the second option is on.
pub fn is_on(option: usize) -> (r: bool)
    ensures
        r == (option == 1),
{
    option == 1
}

/// Whether a row is governed by the master preset, so that an explicit choice opts out
/// of it.
pub open spec fn preset_governed(change: RowChange) -> bool {
    match change {
        RowChange::RenderScale(_) => true,
        RowChange::Toggle(_, _) => true,
        RowChange::Cycle(_, _) => true,
        RowChange::ShadowMapSize(_) => true,
        RowChange::ShadowUpdate(_) => true,
        RowChange::ShadowDistance(_) => true,
        RowChange::ShadowCascades(_) => true,
        RowChange::Anisotropy(_) => true,
        _ => false,
    }
}

/// The settings with a row's own value changed.
pub open spec fn row_set(s: RenderSettings, change: RowChange) -> RenderSettings {
    match change {
        RowChange::Vsync(on) => RenderSettings { vsync: on, ..s },
        RowChange::WindowMode(mode) => RenderSettings { window_mode: mode, ..s },
        RowChange::WindowSize(w, h) => RenderSettings { window_width: w, window_height: h, ..s },
        RowChange::RenderScale(v) => RenderSettings { render_scale: v, ..s },
        RowChange::MasterVolume(_) => s,
        RowChange::Toggle(t, on) => RenderSettings {
            post_config: with_toggle(s.post_config, t, on),
            ..s
        },
        RowChange::Cycle(c, v) => RenderSettings {
            post_config: with_knob(s.post_config, c, v),
            ..s
        },
        RowChange::TemporalUpscaling(on) => RenderSettings { temporal_upscaling: on, ..s },
        RowChange::HdrDisplay(on) => RenderSettings { hdr_display: on, ..s },
        RowChange::HdrPq(on) => RenderSettings { hdr_pq: on, ..s },
        RowChange::ShadowMapSize(v) => RenderSettings { shadow_map_size: v, ..s },
        RowChange::ShadowUpdate(v) => RenderSettings { shadow_update: v, ..s },
        RowChange::ShadowDistance(v) => RenderSettings { shadow_distance: v, ..s },
        RowChange::ShadowCascades(v) => RenderSettings { shadow_cascades: v, ..s },
        RowChange::Anisotropy(v) => RenderSettings { anisotropy: v, ..s },
        RowChange::UpscaleBackend(v) => RenderSettings { upscale_backend: v, ..s },
        RowChange::FramesInFlight(v) => RenderSettings { frames_in_flight: v as usize, ..s },
        RowChange::OcclusionTwoPass(on) => RenderSettings { occlusion_two_pass: on, ..s },
        RowChange::TextureQuality(cap, budget) => RenderSettings {
            texture_cap: cap,
            texture_budget: budget,
            ..s
        },
    }
}

/// The settings after a row's change.
pub open spec fn row_settings(s: RenderSettings, change: RowChange) -> RenderSettings {
    let set = row_set(s, change);
    if preset_governed(change) {
        RenderSettings { quality_preset: QualityPreset::Custom, ..set }
    } else {
        set
    }
}

/// What is stored with a row's own value changed.
pub open spec fn row_kept(u: UserSettings, change: RowChange) -> UserSettings {
    match change {
        RowChange::Vsync(on) => UserSettings { vsync: Some(on), ..u },
        RowChange::WindowMode(mode) => UserSettings { window_mode: Some(mode), ..u },
        RowChange::WindowSize(w, h) => UserSettings { window_size: Some((w, h)), ..u },
        RowChange::RenderScale(v) => UserSettings { render_scale: Some(v), ..u },
        RowChange::MasterVolume(g) => UserSettings { master_volume: Some(g), ..u },
        RowChange::Toggle(t, on) => match t {
            QualityToggle::Taa => UserSettings { taa: Some(on), ..u },
            QualityToggle::Ssao => UserSettings { ssao: Some(on), ..u },
            QualityToggle::Ssr => UserSettings { ssr: Some(on), ..u },
            QualityToggle::RayTracedReflections => UserSettings {
                ray_traced_reflections: Some(on),
                ..u
            },
            QualityToggle::Ssgi => UserSettings { ssgi: Some(on), ..u },
            QualityToggle::AutoExposure => UserSettings { auto_exposure: Some(on), ..u },
        },
        RowChange::Cycle(c, v) => match c {
            QualityCycle::AaMode => u,
            QualityCycle::SsgiResolution => UserSettings { ssgi_resolution: Some(v), ..u },
            QualityCycle::SsgiRays => UserSettings { ssgi_rays: Some(v), ..u },
            QualityCycle::SsgiSteps => UserSettings { ssgi_steps: Some(v), ..u },
            QualityCycle::ReflectionBlurResolution => UserSettings {
                reflection_blur_resolution: Some(v),
                ..u
            },
        },
        RowChange::TemporalUpscaling(on) => UserSettings { temporal_upscaling: Some(on), ..u },
        RowChange::HdrDisplay(on) => UserSettings { hdr_display: Some(on), ..u },
        RowChange::HdrPq(on) => UserSettings { hdr_pq: Some(on), ..u },
        RowChange::ShadowMapSize(v) => UserSettings { shadow_map_size: Some(v), ..u },
        RowChange::ShadowUpdate(v) => UserSettings { shadow_update: Some(v), ..u },
        RowChange::ShadowDistance(v) => UserSettings { shadow_distance: Some(v), ..u },
        RowChange::ShadowCascades(v) => UserSettings { shadow_cascades: Some(v), ..u },
        RowChange::Anisotropy(v) => UserSettings { anisotropy: Some(v), ..u },
        RowChange::UpscaleBackend(v) => UserSettings { upscale_backend: Some(v), ..u },
        RowChange::FramesInFlight(v) => UserSettings { frames_in_flight: Some(v), ..u },
        RowChange::OcclusionTwoPass(on) => UserSettings { occlusion_two_pass: Some(on), ..u },
        RowChange::TextureQuality(cap, budget) => UserSettings {
            texture_cap: Some(cap),
            texture_budget: Some(budget),
            ..u
        },
    }
}

/// What is stored after a row's change.
pub open spec fn row_user(u: UserSettings, change: RowChange) -> UserSettings {
    let kept = row_kept(u, change);
    if preset_governed(change) {
        UserSettings { quality_preset: Some(QualityPreset::Custom), ..kept }
    } else {
        kept
    }
}

/// What is told of a row's change, in order. Restart-required rows tell nothing but
/// the preset's new name.
pub open spec fn row_actions(s: RenderSettings, change: RowChange) -> Seq<SettingAction> {
    let now = row_settings(s, change);
    match change {
        RowChange::Vsync(on) => seq![SettingAction::SetVsync(on)],
        RowChange::WindowMode(mode) => if mode == WindowMode::Windowed {
            seq![
                SettingAction::SetWindowMode(mode),
                SettingAction::SetWindowSize(s.window_width, s.window_height),
            ]
        } else {
            seq![SettingAction::SetWindowMode(mode)]
        },
        RowChange::WindowSize(w, h) => if s.window_mode == WindowMode::Windowed {
            seq![SettingAction::SetWindowSize(w, h)]
        } else {
            Seq::empty()
        },
        RowChange::RenderScale(_) => seq![SettingAction::RelabelPreset],
        RowChange::MasterVolume(g) => seq![SettingAction::SendMasterVolume(g)],
        RowChange::Toggle(t, _) => if t == QualityToggle::AutoExposure {
            seq![
                SettingAction::RelabelPreset,
                SettingAction::ApplyQuality(now.post_config),
                SettingAction::UpdatePostProcess(now.post_process),
            ]
        } else {
            seq![SettingAction::RelabelPreset, SettingAction::ApplyQuality(now.post_config)]
        },
        RowChange::Cycle(_, _) => seq![
            SettingAction::RelabelPreset,
            SettingAction::ApplyQuality(now.post_config),
        ],
        RowChange::ShadowMapSize(_) => seq![SettingAction::RelabelPreset],
        RowChange::ShadowUpdate(v) => seq![
            SettingAction::SetShadowUpdate(v),
            SettingAction::RelabelPreset,
        ],
        RowChange::ShadowDistance(v) => seq![
            SettingAction::SetShadowDistance(v),
            SettingAction::RelabelPreset,
        ],
        RowChange::ShadowCascades(v) => seq![
            SettingAction::SetShadowCascades(v),
            SettingAction::RelabelPreset,
        ],
        RowChange::Anisotropy(_) => seq![SettingAction::RelabelPreset],
        _ => Seq::empty(),
    }
}

/// A slider.
#[derive(Debug, Clone, Copy, PartialEq, Eq, Structural)]
pub enum Slider {
    Exposure,
    BloomIntensity,
    BloomThreshold,
    BloomKnee,
    Vignette,
    LutStrength,
    AmbientIntensity,
    SsaoRadius,
    SsaoIntensity,
    SsrIntensity,
    SsrMaxDistance,
    SsgiIntensity,
    SsgiMaxDistance,
    AutoExposureMinEv,
    AutoExposureMaxEv,
    AutoExposureSpeed,
    MouseSensitivity,
}

/// The key of a slider.
pub open spec fn slider_text(s: Slider) -> Seq<char> {
    match s {
        Slider::Exposure => "exposure"@,
        Slider::BloomIntensity => "bloom_intensity"@,
        Slider::BloomThreshold => "bloom_threshold"@,
        Slider::BloomKnee => "bloom_knee"@,
        Slider::Vignette => "vignette"@,
        Slider::LutStrength => "lut_strength"@,
        Slider::AmbientIntensity => "ambient_intensity"@,
        Slider::SsaoRadius => "ssao_radius"@,
        Slider::SsaoIntensity => "ssao_intensity"@,
        Slider::SsrIntensity => "ssr_intensity"@,
        Slider::SsrMaxDistance => "ssr_max_distance"@,
        Slider::SsgiIntensity => "ssgi_intensity"@,
        Slider::SsgiMaxDistance => "ssgi_max_distance"@,
        Slider::AutoExposureMinEv => "auto_exposure_min_ev"@,
        Slider::AutoExposureMaxEv => "auto_exposure_max_ev"@,
        Slider::AutoExposureSpeed => "auto_exposure_speed"@,
        Slider::MouseSensitivity => "mouse_sensitivity"@,
    }
}

/// No two sliders have the same key.
#[verifier::spinoff_prover]
pub proof fn law_slider_texts_distinct(a: Slider, b: Slider)
    requires
        slider_text(a) == slider_text(b),
    ensures
        a == b,
{
    reveal_strlit("exposure");
    reveal_strlit("bloom_intensity");
    reveal_strlit("bloom_threshold");
    reveal_strlit("bloom_knee");
    reveal_strlit("vignette");
    reveal_strlit("lut_strength");
    reveal_strlit("ambient_intensity");
    reveal_strlit("ssao_radius");
    reveal_strlit("ssao_intensity");
    reveal_strlit("ssr_intensity");
    reveal_strlit("ssr_max_distance");
    reveal_strlit("ssgi_intensity");
    reveal_strlit("ssgi_max_distance");
    reveal_strlit("auto_exposure_min_ev");
    reveal_strlit("auto_exposure_max_ev");
    reveal_strlit("auto_exposure_speed");
    reveal_strlit("mouse_sensitivity");
    assert("exposure"@.len() == 8 && "exposure"@[0] == 'e');
    assert("bloom_intensity"@.len() == 15 && "bloom_intensity"@[6] == 'i');
    assert("bloom_threshold"@.len() == 15 && "bloom_threshold"@[6] == 't');
    assert("bloom_knee"@.len() == 10);
    assert("vignette"@.len() == 8 && "vignette"@[0] == 'v');
    assert("lut_strength"@.len() == 12);
    assert("ambient_intensity"@.len() == 17 && "ambient_intensity"@[0] == 'a');
    assert("ssao_radius"@.len() == 11);
    assert("ssao_intensity"@.len() == 14 && "ssao_intensity"@[2] == 'a');
    assert("ssr_intensity"@.len() == 13);
    assert("ssr_max_distance"@.len() == 16);
    assert("ssgi_intensity"@.len() == 14 && "ssgi_intensity"@[2] == 'g');
    assert("ssgi_max_distance"@.len() == 17 && "ssgi_max_distance"@[0] == 's');
    assert("auto_exposure_min_ev"@.len() == 20 && "auto_exposure_min_ev"@[15] == 'i');
    assert("auto_exposure_max_ev"@.len() == 20 && "auto_exposure_max_ev"@[15] == 'a');
    assert("auto_exposure_speed"@.len() == 19);
    assert("mouse_sensitivity"@.len() == 17 && "mouse_sensitivity"@[0] == 'm');
}

impl Slider {
    /// The slider of a key.
    pub fn from_key(key: &str) -> (r: Option<Slider>)
        ensures
            forall|s: Slider| key@ == #[trigger] slider_text(s) ==> r == Some(s),
            r matches Some(s) ==> key@ == slider_text(s),
    {
        let r: Option<Slider> = if same_text(key, "exposure") {
            Some(Slider::Exposure)
        } else if same_text(key, "bloom_intensity") {
            Some(Slider::BloomIntensity)
        } else if same_text(key, "bloom_threshold") {
            Some(Slider::BloomThreshold)
        } else if same_text(key, "bloom_knee") {
            Some(Slider::BloomKnee)
        } else if same_text(key, "vignette") {
            Some(Slider::Vignette)
        } else if same_text(key, "lut_strength") {
            Some(Slider::LutStrength)
        } else if same_text(key, "ambient_intensity") {
            Some(Slider::AmbientIntensity)
        } else if same_text(key, "ssao_radius") {
            Some(Slider::SsaoRadius)
        } else if same_text(key, "ssao_intensity") {
            Some(Slider::SsaoIntensity)
        } else if same_text(key, "ssr_intensity") {
            Some(Slider::SsrIntensity)
        } else if same_text(key, "ssr_max_distance") {
            Some(Slider::SsrMaxDistance)
        } else if same_text(key, "ssgi_intensity") {
            Some(Slider::SsgiIntensity)
        } else if same_text(key, "ssgi_max_distance") {
            Some(Slider::SsgiMaxDistance)
        } else if same_text(key, "auto_exposure_min_ev") {
            Some(Slider::AutoExposureMinEv)
        } else if same_text(key, "auto_exposure_max_ev") {
            Some(Slider::AutoExposureMaxEv)
        } else if same_text(key, "auto_exposure_speed") {
            Some(Slider::AutoExposureSpeed)
        } else if same_text(key, "mouse_sensitivity") {
            Some(Slider::MouseSensitivity)
        } else {
            None
        };
        proof {
            assert forall|s: Slider| key@ == #[trigger] slider_text(s) implies r == Some(s) by {
                assert(r is Some);
                law_slider_texts_distinct(s, r->0);
            }
        }
        r
    }
}

/// The live value behind a slider; none where another system holds it.
pub open spec fn slider_value(s: RenderSettings, slider: Slider) -> Option<FloatBits> {
    match slider {
        Slider::Exposure => Some(s.post_process.exposure),
        Slider::BloomIntensity => Some(s.post_process.bloom_intensity),
        Slider::BloomThreshold => Some(s.post_process.bloom_threshold),
        Slider::BloomKnee => Some(s.post_process.bloom_knee),
        Slider::Vignette => Some(s.post_process.vignette),
        Slider::LutStrength => Some(s.post_process.lut_strength),
        Slider::AmbientIntensity => Some(s.ambient_intensity),
        Slider::SsaoRadius => Some(s.post_config.ssao_radius),
        Slider::SsaoIntensity => Some(s.post_config.ssao_intensity),
        Slider::SsrIntensity => Some(s.post_config.ssr_intensity),
        Slider::SsrMaxDistance => Some(s.post_config.ssr_max_distance),
        Slider::SsgiIntensity => Some(s.post_config.ssgi_intensity),
        Slider::SsgiMaxDistance => Some(s.post_config.ssgi_max_distance),
        Slider::AutoExposureMinEv => Some(s.post_config.auto_exposure_min_ev),
        Slider::AutoExposureMaxEv => Some(s.post_config.auto_exposure_max_ev),
        Slider::AutoExposureSpeed => Some(s.post_config.auto_exposure_speed),
        Slider::MouseSensitivity => None,
    }
}

/// The settings with the value behind a slider set.
pub open spec fn with_slider(s: RenderSettings, slider: Slider, v: FloatBits) -> RenderSettings {
    let p = s.post_process;
    let c = s.post_config;
    match slider {
        Slider::Exposure => RenderSettings {
            post_process: PostProcessParams { exposure: v, ..p },
            ..s
        },
        Slider::BloomIntensity => RenderSettings {
            post_process: PostProcessParams { bloom_intensity: v, ..p },
            ..s
        },
        Slider::BloomThreshold => RenderSettings {
            post_process: PostProcessParams { bloom_threshold: v, ..p },
            ..s
        },
        Slider::BloomKnee => RenderSettings {
            post_process: PostProcessParams { bloom_knee: v, ..p },
            ..s
        },
        Slider::Vignette => RenderSettings {
            post_process: PostProcessParams { vignette: v, ..p },
            ..s
        },
        Slider::LutStrength => RenderSettings {
            post_process: PostProcessParams { lut_strength: v, ..p },
            ..s
        },
        Slider::AmbientIntensity => RenderSettings { ambient_intensity: v, ..s },
        Slider::SsaoRadius => RenderSettings {
            post_config: PostProcessConfig { ssao_radius: v, ..c },
            ..s
        },
        Slider::SsaoIntensity => RenderSettings {
            post_config: PostProcessConfig { ssao_intensity: v, ..c },
            ..s
        },
        Slider::SsrIntensity => RenderSettings {
            post_config: PostProcessConfig { ssr_intensity: v, ..c },
            ..s
        },
        Slider::SsrMaxDistance => RenderSettings {
            post_config: PostProcessConfig { ssr_max_distance: v, ..c },
            ..s
        },
        Slider::SsgiIntensity => RenderSettings {
            post_config: PostProcessConfig { ssgi_intensity: v, ..c },
            ..s
        },
        Slider::SsgiMaxDistance => RenderSettings {
            post_config: PostProcessConfig { ssgi_max_distance: v, ..c },
            ..s
        },
        Slider::AutoExposureMinEv => RenderSettings {
            post_config: PostProcessConfig { auto_exposure_min_ev: v, ..c },
            ..s
        },
        Slider::AutoExposureMaxEv => RenderSettings {
            post_config: PostProcessConfig { auto_exposure_max_ev: v, ..c },
            ..s
        },
        Slider::AutoExposureSpeed => RenderSettings {
            post_config: PostProcessConfig { auto_exposure_speed: v, ..c },
            ..s
        },
        Slider::MouseSensitivity => s,
    }
}

/// What is stored of a slider: the user-facing value, and the applied one of the
/// mouse sensitivity.
pub open spec fn slider_user(
    u: UserSettings,
    slider: Slider,
    value: FloatBits,
    stored: FloatBits,
) -> UserSettings {
    let v = Some(value);
    match slider {
        Slider::Exposure => UserSettings { exposure_ev: v, ..u },
        Slider::BloomIntensity => UserSettings { bloom_intensity: v, ..u },
        Slider::BloomThreshold => UserSettings { bloom_threshold: v, ..u },
        Slider::BloomKnee => UserSettings { bloom_knee: v, ..u },
        Slider::Vignette => UserSettings { vignette: v, ..u },
        Slider::LutStrength => UserSettings { lut_strength: v, ..u },
        Slider::AmbientIntensity => UserSettings { ambient_intensity: v, ..u },
        Slider::SsaoRadius => UserSettings { ssao_radius: v, ..u },
        Slider::SsaoIntensity => UserSettings { ssao_intensity: v, ..u },
        Slider::SsrIntensity => UserSettings { ssr_intensity: v, ..u },
        Slider::SsrMaxDistance => UserSettings { ssr_max_distance: v, ..u },
        Slider::SsgiIntensity => UserSettings { ssgi_intensity: v, ..u },
        Slider::SsgiMaxDistance => UserSettings { ssgi_max_distance: v, ..u },
        Slider::AutoExposureMinEv => UserSettings { auto_exposure_min_ev: v, ..u },
        Slider::AutoExposureMaxEv => UserSettings { auto_exposure_max_ev: v, ..u },
        Slider::AutoExposureSpeed => UserSettings { auto_exposure_speed: v, ..u },
        Slider::MouseSensitivity => UserSettings { mouse_sensitivity: Some(stored), ..u },
    }
}

/// What is told of a slider's change, in order.
pub open spec fn slider_actions(
    now: RenderSettings,
    slider: Slider,
    stored: FloatBits,
    quality_param: bool,
) -> Seq<SettingAction> {
    let push = if quality_param {
        seq![SettingAction::UpdateQualityParams(now.post_config)]
    } else if slider != Slider::MouseSensitivity {
        seq![SettingAction::UpdatePostProcess(now.post_process)]
    } else {
        Seq::empty()
    };
    if slider == Slider::AmbientIntensity {
        push + seq![SettingAction::SetAmbient(stored)]
    } else if slider == Slider::MouseSensitivity {
        push + seq![SettingAction::SendMouseSensitivity(stored)]
    } else {
        push
    }
}

/// A preset and its ceiling.
#[derive(Debug, Clone, Copy, PartialEq, Eq, Structural)]
pub struct PresetChoice {
    pub preset: QualityPreset,
    pub ceiling: QualityCeiling,
}

/// What the world asks for of the values that a preset governs.
pub open spec fn authored(s: RenderSettings) -> Governed {
    Governed {
        post_config: s.authored_post_config,
        render_scale: s.authored_post_config.upscale_quality,
        shadow_map_size: s.authored_shadow_map_size,
        shadow_update: s.authored_shadow_update,
        shadow_distance: s.authored_shadow_distance,
        shadow_cascades: s.authored_shadow_cascades,
        anisotropy: s.authored_anisotropy,
    }
}

/// The settings after a preset is picked, where `governed` is what its ceiling makes of
/// what the world asks for.
pub open spec fn preset_settings(
    s: RenderSettings,
    preset: QualityPreset,
    governed: Governed,
) -> RenderSettings {
    RenderSettings {
        quality_preset: preset,
        post_config: governed.post_config,
        render_scale: governed.render_scale,
        shadow_map_size: governed.shadow_map_size,
        shadow_update: governed.shadow_update,
        shadow_distance: governed.shadow_distance,
        shadow_cascades: governed.shadow_cascades,
        anisotropy: governed.anisotropy,
        ..s
    }
}

/// What is told of a picked preset, in order.
pub open spec fn preset_actions(now: RenderSettings) -> Seq<SettingAction> {
    seq![
        SettingAction::ApplyQuality(now.post_config),
        SettingAction::UpdatePostProcess(now.post_process),
        SettingAction::SetShadowUpdate(now.shadow_update),
        SettingAction::SetShadowDistance(now.shadow_distance),
        SettingAction::SetShadowCascades(now.shadow_cascades),
    ]
}

/// What is stored after a preset is picked: the preset, and no choice of a row that it
/// governs.
pub open spec fn preset_user(u: UserSettings, preset: QualityPreset) -> UserSettings {
    UserSettings {
        quality_preset: Some(preset),
        taa: None,
        ssao: None,
        ssr: None,
        ray_traced_reflections: None,
        ssgi: None,
        auto_exposure: None,
        ssgi_resolution: None,
        ssgi_rays: None,
        ssgi_steps: None,
        reflection_blur_resolution: None,
        shadow_map_size: None,
        shadow_update: None,
        shadow_distance: None,
        shadow_cascades: None,
        anisotropy: None,
        render_scale: None,
        ..u
    }
}

/// The swap partner of a rebind: the other action that holds the new key.
pub open spec fn rebind_victim(map: KeyMap, action: Bindable, key: Key) -> Option<Bindable> {
    match map.holder(key) {
        Some(a) => if a != action {
            Some(a)
        } else {
            None
        },
        None => None,
    }
}

fn governs_row(change: RowChange) -> (r: bool)
    ensures
        r == preset_governed(change),
{
    match change {
        RowChange::RenderScale(_) => true,
        RowChange::Toggle(_, _) => true,
        RowChange::Cycle(_, _) => true,
        RowChange::ShadowMapSize(_) => true,
        RowChange::ShadowUpdate(_) => true,
        RowChange::ShadowDistance(_) => true,
        RowChange::ShadowCascades(_) => true,
        RowChange::Anisotropy(_) => true,
        _ => false,
    }
}

fn set_row(s: RenderSettings, change: RowChange) -> (r: RenderSettings)
    ensures
        r == row_set(s, change),
{
    match change {
        RowChange::Vsync(on) => RenderSettings { vsync: on, ..s },
        RowChange::WindowMode(mode) => RenderSettings { window_mode: mode, ..s },
        RowChange::WindowSize(w, h) => RenderSettings { window_width: w, window_height: h, ..s },
        RowChange::RenderScale(v) => RenderSettings { render_scale: v, ..s },
        RowChange::MasterVolume(_) => s,
        RowChange::Toggle(t, on) => {
            let mut post_config: PostProcessConfig = s.post_config;
            set_toggle(&mut post_config, t, on);
            RenderSettings { post_config, ..s }
        },
        RowChange::Cycle(c, v) => {
            let mut post_config: PostProcessConfig = s.post_config;
            set_quality_cycle(&mut post_config, c, v);
            RenderSettings { post_config, ..s }
        },
        RowChange::TemporalUpscaling(on) => RenderSettings { temporal_upscaling: on, ..s },
        RowChange::HdrDisplay(on) => RenderSettings { hdr_display: on, ..s },
        RowChange::HdrPq(on) => RenderSettings { hdr_pq: on, ..s },
        RowChange::ShadowMapSize(v) => RenderSettings { shadow_map_size: v, ..s },
        RowChange::ShadowUpdate(v) => RenderSettings { shadow_update: v, ..s },
        RowChange::ShadowDistance(v) => RenderSettings { shadow_distance: v, ..s },
        RowChange::ShadowCascades(v) => RenderSettings { shadow_cascades: v, ..s },
        RowChange::Anisotropy(v) => RenderSettings { anisotropy: v, ..s },
        RowChange::UpscaleBackend(v) => RenderSettings { upscale_backend: v, ..s },
        RowChange::FramesInFlight(v) => RenderSettings { frames_in_flight: v as usize, ..s },
        RowChange::OcclusionTwoPass(on) => RenderSettings { occlusion_two_pass: on, ..s },
        RowChange::TextureQuality(cap, budget) => RenderSettings {
            texture_cap: cap,
            texture_budget: budget,
            ..s
        },
    }
}

fn keep_row(u: UserSettings, change: RowChange) -> (r: UserSettings)
    ensures
        r == row_kept(u, change),
{
    match change {
        RowChange::Vsync(on) => UserSettings { vsync: Some(on), ..u },
        RowChange::WindowMode(mode) => UserSettings { window_mode: Some(mode), ..u },
        RowChange::WindowSize(w, h) => UserSettings { window_size: Some((w, h)), ..u },
        RowChange::RenderScale(v) => UserSettings { render_scale: Some(v), ..u },
        RowChange::MasterVolume(g) => UserSettings { master_volume: Some(g), ..u },
        RowChange::Toggle(t, on) => match t {
            QualityToggle::Taa => UserSettings { taa: Some(on), ..u },
            QualityToggle::Ssao => UserSettings { ssao: Some(on), ..u },
            QualityToggle::Ssr => UserSettings { ssr: Some(on), ..u },
            QualityToggle::RayTracedReflections => UserSettings {
                ray_traced_reflections: Some(on),
                ..u
            },
            QualityToggle::Ssgi => UserSettings { ssgi: Some(on), ..u },
            QualityToggle::AutoExposure => UserSettings { auto_exposure: Some(on), ..u },
        },
        RowChange::Cycle(c, v) => match c {
            QualityCycle::AaMode => u,
            QualityCycle::SsgiResolution => UserSettings { ssgi_resolution: Some(v), ..u },
            QualityCycle::SsgiRays => UserSettings { ssgi_rays: Some(v), ..u },
            QualityCycle::SsgiSteps => UserSettings { ssgi_steps: Some(v), ..u },
            QualityCycle::ReflectionBlurResolution => UserSettings {
                reflection_blur_resolution: Some(v),
                ..u
            },
        },
        RowChange::TemporalUpscaling(on) => UserSettings { temporal_upscaling: Some(on), ..u },
        RowChange::HdrDisplay(on) => UserSettings { hdr_display: Some(on), ..u },
        RowChange::HdrPq(on) => UserSettings { hdr_pq: Some(on), ..u },
        RowChange::ShadowMapSize(v) => UserSettings { shadow_map_size: Some(v), ..u },
        RowChange::ShadowUpdate(v) => UserSettings { shadow_update: Some(v), ..u },
        RowChange::ShadowDistance(v) => UserSettings { shadow_distance: Some(v), ..u },
        RowChange::ShadowCascades(v) => UserSettings { shadow_cascades: Some(v), ..u },
        RowChange::Anisotropy(v) => UserSettings { anisotropy: Some(v), ..u },
        RowChange::UpscaleBackend(v) => UserSettings { upscale_backend: Some(v), ..u },
        RowChange::FramesInFlight(v) => UserSettings { frames_in_flight: Some(v), ..u },
        RowChange::OcclusionTwoPass(on) => UserSettings { occlusion_two_pass: Some(on), ..u },
        RowChange::TextureQuality(cap, budget) => UserSettings {
            texture_cap: Some(cap),
            texture_budget: Some(budget),
            ..u
        },
    }
}

fn tell_row(was: &RenderSettings, now: &RenderSettings, change: RowChange) -> (r: Vec<SettingAction>)
    requires
        *now == row_settings(*was, change),
    ensures
        r@ == row_actions(*was, change),
{
    let mut out: Vec<SettingAction> = Vec::new();
    match change {
        RowChange::Vsync(on) => {
            out.push(SettingAction::SetVsync(on));
        },
        RowChange::WindowMode(mode) => {
            out.push(SettingAction::SetWindowMode(mode));
            if mode == WindowMode::Windowed {
                out.push(SettingAction::SetWindowSize(was.window_width, was.window_height));
            }
        },
        RowChange::WindowSize(w, h) => {
            if was.window_mode == WindowMode::Windowed {
                out.push(SettingAction::SetWindowSize(w, h));
            }
        },
        RowChange::RenderScale(_) => {
            out.push(SettingAction::RelabelPreset);
        },
        RowChange::MasterVolume(g) => {
            out.push(SettingAction::SendMasterVolume(g));
        },
        RowChange::Toggle(t, _) => {
            out.push(SettingAction::RelabelPreset);
            out.push(SettingAction::ApplyQuality(now.post_config));
            if t == QualityToggle::AutoExposure {
                out.push(SettingAction::UpdatePostProcess(now.post_process));
            }
        },
        RowChange::Cycle(_, _) => {
            out.push(SettingAction::RelabelPreset);
            out.push(SettingAction::ApplyQuality(now.post_config));
        },
        RowChange::ShadowMapSize(_) => {
            out.push(SettingAction::RelabelPreset);
        },
        RowChange::ShadowUpdate(v) => {
            out.push(SettingAction::SetShadowUpdate(v));
            out.push(SettingAction::RelabelPreset);
        },
        RowChange::ShadowDistance(v) => {
            out.push(SettingAction::SetShadowDistance(v));
            out.push(SettingAction::RelabelPreset);
        },
        RowChange::ShadowCascades(v) => {
            out.push(SettingAction::SetShadowCascades(v));
            out.push(SettingAction::RelabelPreset);
        },
        RowChange::Anisotropy(_) => {
            out.push(SettingAction::RelabelPreset);
        },
        _ => {},
    }
    assert(out@ =~= row_actions(*was, change));
    out
}

fn set_slider(s: RenderSettings, slider: Slider, v: FloatBits) -> (r: RenderSettings)
    ensures
        r == with_slider(s, slider, v),
{
    let p: PostProcessParams = s.post_process;
    let c: PostProcessConfig = s.post_config;
    match slider {
        Slider::Exposure => RenderSettings {
            post_process: PostProcessParams { exposure: v, ..p },
            ..s
        },
        Slider::BloomIntensity => RenderSettings {
            post_process: PostProcessParams { bloom_intensity: v, ..p },
            ..s
        },
        Slider::BloomThreshold => RenderSettings {
            post_process: PostProcessParams { bloom_threshold: v, ..p },
            ..s
        },
        Slider::BloomKnee => RenderSettings {
            post_process: PostProcessParams { bloom_knee: v, ..p },
            ..s
        },
        Slider::Vignette => RenderSettings {
            post_process: PostProcessParams { vignette: v, ..p },
            ..s
        },
        Slider::LutStrength => RenderSettings {
            post_process: PostProcessParams { lut_strength: v, ..p },
            ..s
        },
        Slider::AmbientIntensity => RenderSettings { ambient_intensity: v, ..s },
        Slider::SsaoRadius => RenderSettings {
            post_config: PostProcessConfig { ssao_radius: v, ..c },
            ..s
        },
        Slider::SsaoIntensity => RenderSettings {
            post_config: PostProcessConfig { ssao_intensity: v, ..c },
            ..s
        },
        Slider::SsrIntensity => RenderSettings {
            post_config: PostProcessConfig { ssr_intensity: v, ..c },
            ..s
        },
        Slider::SsrMaxDistance => RenderSettings {
            post_config: PostProcessConfig { ssr_max_distance: v, ..c },
            ..s
        },
        Slider::SsgiIntensity => RenderSettings {
            post_config: PostProcessConfig { ssgi_intensity: v, ..c },
            ..s
        },
        Slider::SsgiMaxDistance => RenderSettings {
            post_config: PostProcessConfig { ssgi_max_distance: v, ..c },
            ..s
        },
        Slider::AutoExposureMinEv => RenderSettings {
            post_config: PostProcessConfig { auto_exposure_min_ev: v, ..c },
            ..s
        },
        Slider::AutoExposureMaxEv => RenderSettings {
            post_config: PostProcessConfig { auto_exposure_max_ev: v, ..c },
            ..s
        },
        Slider::AutoExposureSpeed => RenderSettings {
            post_config: PostProcessConfig { auto_exposure_speed: v, ..c },
            ..s
        },
        Slider::MouseSensitivity => s,
    }
}

fn keep_slider(u: UserSettings, slider: Slider, value: FloatBits, stored: FloatBits) -> (r: UserSettings)
    ensures
        r == slider_user(u, slider, value, stored),
{
    let v: Option<FloatBits> = Some(value);
    match slider {
        Slider::Exposure => UserSettings { exposure_ev: v, ..u },
        Slider::BloomIntensity => UserSettings { bloom_intensity: v, ..u },
        Slider::BloomThreshold => UserSettings { bloom_threshold: v, ..u },
        Slider::BloomKnee => UserSettings { bloom_knee: v, ..u },
        Slider::Vignette => UserSettings { vignette: v, ..u },
        Slider::LutStrength => UserSettings { lut_strength: v, ..u },
        Slider::AmbientIntensity => UserSettings { ambient_intensity: v, ..u },
        Slider::SsaoRadius => UserSettings { ssao_radius: v, ..u },
        Slider::SsaoIntensity => UserSettings { ssao_intensity: v, ..u },
        Slider::SsrIntensity => UserSettings { ssr_intensity: v, ..u },
        Slider::SsrMaxDistance => UserSettings { ssr_max_distance: v, ..u },
        Slider::SsgiIntensity => UserSettings { ssgi_intensity: v, ..u },
        Slider::SsgiMaxDistance => UserSettings { ssgi_max_distance: v, ..u },
        Slider::AutoExposureMinEv => UserSettings { auto_exposure_min_ev: v, ..u },
        Slider::AutoExposureMaxEv => UserSettings { auto_exposure_max_ev: v, ..u },
        Slider::AutoExposureSpeed => UserSettings { auto_exposure_speed: v, ..u },
        Slider::MouseSensitivity => UserSettings { mouse_sensitivity: Some(stored), ..u },
    }
}

impl RenderSettings {
    /// Change a cycle row.
    pub fn change_row(&mut self, user: &mut UserSettings, change: RowChange) -> (r: Vec<
        SettingAction,
    >)
        ensures
            *final(self) == row_settings(*old(self), change),
            *final(user) == row_user(*old(user), change),
            r@ == row_actions(*old(self), change),
    {
        let was: RenderSettings = *self;
        let set: RenderSettings = set_row(was, change);
        let kept: UserSettings = keep_row(*user, change);
        if governs_row(change) {
            *self = RenderSettings { quality_preset: QualityPreset::Custom, ..set };
            *user = UserSettings { quality_preset: Some(QualityPreset::Custom), ..kept };
        } else {
            *self = set;
            *user = kept;
        }
        tell_row(&was, &*self, change)
    }

    /// The live value behind a slider.
    pub fn slider_current_value(&self, slider: Slider) -> (r: Option<FloatBits>)
        ensures
            r == slider_value(*self, slider),
    {
        match slider {
            Slider::Exposure => Some(self.post_process.exposure),
            Slider::BloomIntensity => Some(self.post_process.bloom_intensity),
            Slider::BloomThreshold => Some(self.post_process.bloom_threshold),
            Slider::BloomKnee => Some(self.post_process.bloom_knee),
            Slider::Vignette => Some(self.post_process.vignette),
            Slider::LutStrength => Some(self.post_process.lut_strength),
            Slider::AmbientIntensity => Some(self.ambient_intensity),
            Slider::SsaoRadius => Some(self.post_config.ssao_radius),
            Slider::SsaoIntensity => Some(self.post_config.ssao_intensity),
            Slider::SsrIntensity => Some(self.post_config.ssr_intensity),
            Slider::SsrMaxDistance => Some(self.post_config.ssr_max_distance),
            Slider::SsgiIntensity => Some(self.post_config.ssgi_intensity),
            Slider::SsgiMaxDistance => Some(self.post_config.ssgi_max_distance),
            Slider::AutoExposureMinEv => Some(self.post_config.auto_exposure_min_ev),
            Slider::AutoExposureMaxEv => Some(self.post_config.auto_exposure_max_ev),
            Slider::AutoExposureSpeed => Some(self.post_config.auto_exposure_speed),
            Slider::MouseSensitivity => None,
        }
    }

    /// Move a slider: `value` is the user-facing value, `stored` the one it applies.
    /// Only the end of a drag is stored for the next launch.
    pub fn slide(
        &mut self,
        user: &mut UserSettings,
        slider: Slider,
        value: FloatBits,
        stored: FloatBits,
        quality_param: bool,
        persist: bool,
    ) -> (r: Vec<SettingAction>)
        ensures
            *final(self) == with_slider(*old(self), slider, stored),
            *final(user) == if persist {
                slider_user(*old(user), slider, value, stored)
            } else {
                *old(user)
            },
            r@ == slider_actions(*final(self), slider, stored, quality_param),
    {
        *self = set_slider(*self, slider, stored);
        let mut out: Vec<SettingAction> = Vec::new();
        if quality_param {
            out.push(SettingAction::UpdateQualityParams(self.post_config));
        } else if slider != Slider::MouseSensitivity {
            out.push(SettingAction::UpdatePostProcess(self.post_process));
        }
        if slider == Slider::AmbientIntensity {
            out.push(SettingAction::SetAmbient(stored));
        }
        if slider == Slider::MouseSensitivity {
            out.push(SettingAction::SendMouseSensitivity(stored));
        }
        if persist {
            *user = keep_slider(*user, slider, value, stored);
        }
        assert(out@ =~= slider_actions(*self, slider, stored, quality_param));
        out
    }

    /// Pick a master preset. `knobs` lists the knobs that presets govern, and `coarser`
    /// picks the coarser of a value and the finest allowed one on a scale.
    pub fn pick_preset<F: Fn(Scale, u32, u32) -> u32>(
        &mut self,
        user: &mut UserSettings,
        choice: &PresetChoice,
        knobs: &Vec<QualityCycle>,
        coarser: &F,
    ) -> (r: Vec<SettingAction>)
        requires
            forall|s: Scale, v: u32, l: u32| call_requires(*coarser, (s, v, l)),
        ensures
            exists|governed: Governed| #[trigger]
                is_governed(
                    *coarser,
                    authored(*old(self)),
                    choice.ceiling,
                    knobs@,
                    governed,
                ) && *final(self) == preset_settings(*old(self), choice.preset, governed),
            *final(user) == preset_user(*old(user), choice.preset),
            r@ == preset_actions(*final(self)),
            r@ == seq![
                SettingAction::ApplyQuality(final(self).post_config),
                SettingAction::UpdatePostProcess(final(self).post_process),
                SettingAction::SetShadowUpdate(final(self).shadow_update),
                SettingAction::SetShadowDistance(final(self).shadow_distance),
                SettingAction::SetShadowCascades(final(self).shadow_cascades),
            ],
    {
        let asked: Governed = Governed {
            post_config: self.authored_post_config,
            render_scale: self.authored_post_config.upscale_quality,
            shadow_map_size: self.authored_shadow_map_size,
            shadow_update: self.authored_shadow_update,
            shadow_distance: self.authored_shadow_distance,
            shadow_cascades: self.authored_shadow_cascades,
            anisotropy: self.authored_anisotropy,
        };
        let governed: Governed = govern(&asked, &choice.ceiling, knobs, coarser);
        *self =
        RenderSettings {
            quality_preset: choice.preset,
            post_config: governed.post_config,
            render_scale: governed.render_scale,
            shadow_map_size: governed.shadow_map_size,
            shadow_update: governed.shadow_update,
            shadow_distance: governed.shadow_distance,
            shadow_cascades: governed.shadow_cascades,
            anisotropy: governed.anisotropy,
            ..*self
        };
        user.quality_preset = Some(choice.preset);
        user.taa = None;
        user.ssao = None;
        user.ssr = None;
        user.ray_traced_reflections = None;
        user.ssgi = None;
        user.auto_exposure = None;
        user.ssgi_resolution = None;
        user.ssgi_rays = None;
        user.ssgi_steps = None;
        user.reflection_blur_resolution = None;
        user.shadow_map_size = None;
        user.shadow_update = None;
        user.shadow_distance = None;
        user.shadow_cascades = None;
        user.anisotropy = None;
        user.render_scale = None;
        let mut out: Vec<SettingAction> = Vec::new();
        out.push(SettingAction::ApplyQuality(self.post_config));
        out.push(SettingAction::UpdatePostProcess(self.post_process));
        out.push(SettingAction::SetShadowUpdate(self.shadow_update));
        out.push(SettingAction::SetShadowDistance(self.shadow_distance));
        out.push(SettingAction::SetShadowCascades(self.shadow_cascades));
        out
    }

    /// Bind an action to a key, swapping with the action that held it. Gives the swap
    /// partner, whose row changes too.
    pub fn rebind_key(&mut self, user: &mut UserSettings, action: Bindable, key: Key) -> (r: (
        Option<Bindable>,
        SettingAction,
    ))
        ensures
            forall|b: Bindable| #[trigger]
                final(self).keymap.bound(b) == rebound(old(self).keymap, action, key, b),
            *final(self) == (RenderSettings { keymap: final(self).keymap, ..*old(self) }),
            *final(user) == (UserSettings { keymap: Some(final(self).keymap), ..*old(user) }),
            r.0 == rebind_victim(old(self).keymap, action, key),
            r.1 == SettingAction::SetKeymap(final(self).keymap),
    {
        let victim: Option<Bindable> = match self.keymap.action_for_key(key) {
            Some(a) => if a != action {
                Some(a)
            } else {
                None
            },
            None => None,
        };
        self.keymap.rebind(action, key);
        user.keymap = Some(self.keymap);
        (victim, SettingAction::SetKeymap(self.keymap))
    }
}

/// A slider reads back what it was moved to, and no other slider moves.
pub proof fn law_slider_reads_back(s: RenderSettings, a: Slider, b: Slider, v: FloatBits)
    ensures
        slider_value(s, a) is Some ==> slider_value(with_slider(s, a, v), a) == Some(v),
        a != b ==> slider_value(with_slider(s, a, v), b) == slider_value(s, b),
{
}

/// Two settings hold the same of what the world asks for.
pub open spec fn same_authored(s: RenderSettings, t: RenderSettings) -> bool {
    &&& s.authored_post_config == t.authored_post_config
    &&& s.authored_shadow_map_size == t.authored_shadow_map_size
    &&& s.authored_shadow_update == t.authored_shadow_update
    &&& s.authored_shadow_distance == t.authored_shadow_distance
    &&& s.authored_shadow_cascades == t.authored_shadow_cascades
    &&& s.authored_anisotropy == t.authored_anisotropy
}

/// An explicit choice on a row that the preset governs leaves the preset at custom,
/// live and stored; any other row leaves the preset alone. None changes what the world
/// asks for.
pub proof fn law_governed_rows_opt_out(s: RenderSettings, u: UserSettings, change: RowChange)
    ensures
        preset_governed(change) ==> row_settings(s, change).quality_preset == QualityPreset::Custom
            && row_user(u, change).quality_preset == Some(QualityPreset::Custom),
        !preset_governed(change) ==> row_settings(s, change).quality_preset == s.quality_preset
            && row_user(u, change).quality_preset == u.quality_preset,
        same_authored(row_settings(s, change), s),
{
}

/// Picking a preset undoes what governed rows were set to: it derives them from what
/// the world asks for, which no choice changes.
pub proof fn law_preset_undoes_rows(
    s: RenderSettings,
    preset: QualityPreset,
    governed: Governed,
    change: RowChange,
)
    requires
        preset_governed(change),
    ensures
        authored(row_settings(s, change)) == authored(s),
        preset_settings(row_settings(s, change), preset, governed) == preset_settings(
            s,
            preset,
            governed,
        ),
{
    lemma_governed_keeps(s, change);
    lemma_preset_depends(s, row_settings(s, change), preset, governed);
}

/// Two settings agree on everything that no preset governs.
spec fn agree_outside(s: RenderSettings, t: RenderSettings) -> bool {
    t == (RenderSettings {
        render_scale: t.render_scale,
        post_config: t.post_config,
        shadow_map_size: t.shadow_map_size,
        shadow_update: t.shadow_update,
        shadow_distance: t.shadow_distance,
        shadow_cascades: t.shadow_cascades,
        anisotropy: t.anisotropy,
        quality_preset: t.quality_preset,
        ..s
    })
}

proof fn lemma_preset_depends(
    s: RenderSettings,
    t: RenderSettings,
    preset: QualityPreset,
    governed: Governed,
)
    requires
        agree_outside(s, t),
    ensures
        authored(t) == authored(s),
        preset_settings(t, preset, governed) == preset_settings(s, preset, governed),
{
}

proof fn lemma_governed_keeps(s: RenderSettings, change: RowChange)
    requires
        preset_governed(change),
    ensures
        agree_outside(s, row_settings(s, change)),
{
    let set = row_set(s, change);
    assert(agree_outside(s, set));
}

/// Picking a preset twice is picking it once, where the choice of the coarser setting
/// always gives the same one.
pub proof fn law_preset_is_idempotent<F: Fn(Scale, u32, u32) -> u32>(
    coarser: F,
    s: RenderSettings,
    choice: PresetChoice,
    knobs: Seq<QualityCycle>,
    first: Governed,
    second: Governed,
)
    requires
        always_same(coarser),
        is_governed(coarser, authored(s), choice.ceiling, knobs, first),
        is_governed(
            coarser,
            authored(preset_settings(s, choice.preset, first)),
            choice.ceiling,
            knobs,
            second,
        ),
    ensures
        preset_settings(preset_settings(s, choice.preset, first), choice.preset, second)
            == preset_settings(s, choice.preset, first),
{
    assert(authored(preset_settings(s, choice.preset, first)) == authored(s));
    law_governed_is_unique(coarser, authored(s), choice.ceiling, knobs, first, second);
}

/// What the world declares of its post-processing.
#[derive(Debug, Clone, Copy, PartialEq, Eq, Structural)]
pub struct DeclaredPost {
    pub config: PostProcessConfig,
    /// The parameters the configuration resolves to.
    pub params: PostProcessParams,
    pub ambient_intensity: FloatBits,
}

/// What the world declares of its graphics.
#[derive(Debug, Clone, Copy, PartialEq, Eq)]
pub struct GraphicsConfig {
    pub frames_in_flight: u32,
    pub vsync: bool,
    pub clear_color: [FloatBits; 4],
    pub max_frames: Option<u64>,
    pub fps_cap: u32,
    pub shadow_map_size: u32,
    pub shadow_update: u32,
    pub shadow_distance: u32,
    pub shadow_cascades: u32,
    pub anisotropy: u32,
}

/// What the world declares, each kind by its first declaration.
#[derive(Debug, Clone, Copy)]
pub struct Declared {
    /// The window's mode and size.
    pub window: Option<(WindowMode, u32, u32)>,
    pub graphics: Option<GraphicsConfig>,
    pub post: Option<DeclaredPost>,
    /// The streaming pool's cap and its per-frame upload budget.
    pub streaming: Option<(u32, u32)>,
}

/// The stored slider values as the sliders apply them, and the ambient light's.
#[derive(Debug, Clone, Copy)]
pub struct AppliedSliders {
    pub exposure: Option<FloatBits>,
    pub bloom_intensity: Option<FloatBits>,
    pub bloom_threshold: Option<FloatBits>,
    pub bloom_knee: Option<FloatBits>,
    pub vignette: Option<FloatBits>,
    pub lut_strength: Option<FloatBits>,
    pub ambient_intensity: FloatBits,
    pub ssao_radius: Option<FloatBits>,
    pub ssao_intensity: Option<FloatBits>,
    pub ssr_intensity: Option<FloatBits>,
    pub ssr_max_distance: Option<FloatBits>,
    pub ssgi_intensity: Option<FloatBits>,
    pub ssgi_max_distance: Option<FloatBits>,
    pub auto_exposure_min_ev: Option<FloatBits>,
    pub auto_exposure_max_ev: Option<FloatBits>,
    pub auto_exposure_speed: Option<FloatBits>,
}

/// A stored choice, or the value it overrides.
pub open spec fn chosen<T>(user: Option<T>, otherwise: T) -> T {
    match user {
        Some(v) => v,
        None => otherwise,
    }
}

/// The configuration with the stored toggles and knobs set.
pub open spec fn with_stored_choices(cfg: PostProcessConfig, u: UserSettings) -> PostProcessConfig {
    PostProcessConfig {
        ssao: chosen(u.ssao, cfg.ssao),
        ssr: chosen(u.ssr, cfg.ssr),
        ray_traced_reflections: chosen(u.ray_traced_reflections, cfg.ray_traced_reflections),
        indirect_lighting: match u.ssgi {
            Some(on) => with_toggle(cfg, QualityToggle::Ssgi, on).indirect_lighting,
            None => cfg.indirect_lighting,
        },
        auto_exposure: chosen(u.auto_exposure, cfg.auto_exposure),
        ssgi_resolution: chosen(u.ssgi_resolution, cfg.ssgi_resolution),
        ssgi_rays: chosen(u.ssgi_rays, cfg.ssgi_rays),
        ssgi_steps: chosen(u.ssgi_steps, cfg.ssgi_steps),
        reflection_blur_resolution: chosen(
            u.reflection_blur_resolution,
            cfg.reflection_blur_resolution,
        ),
        ..cfg
    }
}

/// The configuration with the stored slider values set.
pub open spec fn with_stored_sliders(
    cfg: PostProcessConfig,
    a: AppliedSliders,
) -> PostProcessConfig {
    PostProcessConfig {
        ssao_radius: chosen(a.ssao_radius, cfg.ssao_radius),
        ssao_intensity: chosen(a.ssao_intensity, cfg.ssao_intensity),
        ssr_intensity: chosen(a.ssr_intensity, cfg.ssr_intensity),
        ssr_max_distance: chosen(a.ssr_max_distance, cfg.ssr_max_distance),
        ssgi_intensity: chosen(a.ssgi_intensity, cfg.ssgi_intensity),
        ssgi_max_distance: chosen(a.ssgi_max_distance, cfg.ssgi_max_distance),
        auto_exposure_min_ev: chosen(a.auto_exposure_min_ev, cfg.auto_exposure_min_ev),
        auto_exposure_max_ev: chosen(a.auto_exposure_max_ev, cfg.auto_exposure_max_ev),
        auto_exposure_speed: chosen(a.auto_exposure_speed, cfg.auto_exposure_speed),
        ..cfg
    }
}

/// The post-process parameters at the start.
pub open spec fn starting_params(base: PostProcessParams, a: AppliedSliders) -> PostProcessParams {
    PostProcessParams {
        exposure: chosen(a.exposure, base.exposure),
        bloom_intensity: chosen(a.bloom_intensity, base.bloom_intensity),
        bloom_threshold: chosen(a.bloom_threshold, base.bloom_threshold),
        bloom_knee: chosen(a.bloom_knee, base.bloom_knee),
        vignette: chosen(a.vignette, base.vignette),
        lut_strength: chosen(a.lut_strength, base.lut_strength),
    }
}

/// What the world asks for of the post-process configuration.
pub open spec fn authored_config(d: RenderSettings, world: Declared) -> PostProcessConfig {
    match world.post {
        Some(p) => p.config,
        None => d.post_config,
    }
}

/// The post-process configuration at the start: `under`, which is what the world asks for
/// under the ceiling, overridden by what the user stored. Toggles and knobs are overridden only
/// where the world declares a configuration.
pub open spec fn starting_config(
    world: Declared,
    a: AppliedSliders,
    u: UserSettings,
    under: PostProcessConfig,
) -> PostProcessConfig {
    with_stored_sliders(
        if world.post is Some {
            with_stored_choices(under, u)
        } else {
            under
        },
        a,
    )
}

/// The settings with what the world declares in place of the defaults.
pub open spec fn declared_settings(d: RenderSettings, world: Declared) -> RenderSettings {
    let (window_mode, window_width, window_height) = chosen(
        world.window,
        (d.window_mode, d.window_width, d.window_height),
    );
    let (texture_cap, texture_budget) = chosen(world.streaming, (d.texture_cap, d.texture_budget));
    let s = RenderSettings {
        window_mode,
        window_width,
        window_height,
        texture_cap,
        texture_budget,
        ..d
    };
    let s = match world.graphics {
        Some(g) => RenderSettings {
            vsync: g.vsync,
            frames_in_flight: g.frames_in_flight as usize,
            shadow_map_size: g.shadow_map_size,
            shadow_update: g.shadow_update,
            authored_shadow_map_size: g.shadow_map_size,
            authored_shadow_update: g.shadow_update,
            shadow_distance: g.shadow_distance,
            shadow_cascades: g.shadow_cascades,
            anisotropy: g.anisotropy,
            authored_shadow_distance: g.shadow_distance,
            authored_shadow_cascades: g.shadow_cascades,
            authored_anisotropy: g.anisotropy,
            ..s
        },
        None => s,
    };
    match world.post {
        Some(p) => RenderSettings {
            post_process: p.params,
            post_config: p.config,
            authored_post_config: p.config,
            hdr_display: p.config.hdr_display,
            hdr_pq: p.config.hdr_pq,
            temporal_upscaling: p.config.temporal_upscaling,
            upscale_backend: p.config.upscale_backend,
            occlusion_two_pass: p.config.occlusion_two_pass,
            ..s
        },
        None => s,
    }
}

/// What the world asks for at the start of the values that a preset governs.
pub open spec fn asked_at_start(d: RenderSettings, world: Declared) -> Governed {
    let s = declared_settings(d, world);
    Governed {
        post_config: authored_config(d, world),
        render_scale: authored_config(d, world).upscale_quality,
        shadow_map_size: s.authored_shadow_map_size,
        shadow_update: s.authored_shadow_update,
        shadow_distance: s.authored_shadow_distance,
        shadow_cascades: s.authored_shadow_cascades,
        anisotropy: s.authored_anisotropy,
    }
}

/// The settings at the start: the defaults, overridden by what the world declares, the
/// governed ones as the preset's ceiling has them, and all overridden by what the user
/// stored.
pub open spec fn starting_settings(
    d: RenderSettings,
    world: Declared,
    a: AppliedSliders,
    u: UserSettings,
    governed: Governed,
) -> RenderSettings {
    let s = declared_settings(d, world);
    let (window_width, window_height) = chosen(u.window_size, (s.window_width, s.window_height));
    RenderSettings {
        window_mode: chosen(u.window_mode, s.window_mode),
        window_width,
        window_height,
        vsync: chosen(u.vsync, s.vsync),
        frames_in_flight: match u.frames_in_flight {
            Some(n) => n as usize,
            None => s.frames_in_flight,
        },
        render_scale: chosen(u.render_scale, governed.render_scale),
        shadow_map_size: chosen(u.shadow_map_size, governed.shadow_map_size),
        shadow_update: chosen(u.shadow_update, governed.shadow_update),
        shadow_distance: chosen(u.shadow_distance, governed.shadow_distance),
        shadow_cascades: chosen(u.shadow_cascades, governed.shadow_cascades),
        anisotropy: chosen(u.anisotropy, governed.anisotropy),
        upscale_backend: chosen(u.upscale_backend, s.upscale_backend),
        temporal_upscaling: chosen(u.temporal_upscaling, s.temporal_upscaling),
        hdr_display: chosen(u.hdr_display, s.hdr_display),
        hdr_pq: chosen(u.hdr_pq, s.hdr_pq),
        occlusion_two_pass: chosen(u.occlusion_two_pass, s.occlusion_two_pass),
        texture_cap: chosen(u.texture_cap, s.texture_cap),
        texture_budget: chosen(u.texture_budget, s.texture_budget),
        quality_preset: chosen(u.quality_preset, QualityPreset::Auto),
        post_process: starting_params(s.post_process, a),
        post_config: starting_config(world, a, u, governed.post_config),
        ambient_intensity: a.ambient_intensity,
        keymap: chosen(u.keymap, default_keymap()),
        ..s
    }
}

fn or_else<T: Copy>(user: Option<T>, otherwise: T) -> (r: T)
    ensures
        r == chosen(user, otherwise),
{
    match user {
        Some(v) => v,
        None => otherwise,
    }
}

/// The preset at the start: the stored one, or the GPU's choice.
pub fn starting_preset(user: &UserSettings) -> (r: QualityPreset)
    ensures
        r == chosen(user.quality_preset, QualityPreset::Auto),
{
    or_else(user.quality_preset, QualityPreset::Auto)
}

fn declare(d: &RenderSettings, world: &Declared) -> (r: RenderSettings)
    ensures
        r == declared_settings(*d, *world),
{
    let (window_mode, window_width, window_height): (WindowMode, u32, u32) = or_else(
        world.window,
        (d.window_mode, d.window_width, d.window_height),
    );
    let (texture_cap, texture_budget): (u32, u32) = or_else(
        world.streaming,
        (d.texture_cap, d.texture_budget),
    );
    let s = RenderSettings {
        window_mode,
        window_width,
        window_height,
        texture_cap,
        texture_budget,
        ..*d
    };
    let s: RenderSettings = match world.graphics {
        Some(g) => RenderSettings {
            vsync: g.vsync,
            frames_in_flight: g.frames_in_flight as usize,
            shadow_map_size: g.shadow_map_size,
            shadow_update: g.shadow_update,
            authored_shadow_map_size: g.shadow_map_size,
            authored_shadow_update: g.shadow_update,
            shadow_distance: g.shadow_distance,
            shadow_cascades: g.shadow_cascades,
            anisotropy: g.anisotropy,
            authored_shadow_distance: g.shadow_distance,
            authored_shadow_cascades: g.shadow_cascades,
            authored_anisotropy: g.anisotropy,
            ..s
        },
        None => s,
    };
    match world.post {
        Some(p) => RenderSettings {
            post_process: p.params,
            post_config: p.config,
            authored_post_config: p.config,
            hdr_display: p.config.hdr_display,
            hdr_pq: p.config.hdr_pq,
            temporal_upscaling: p.config.temporal_upscaling,
            upscale_backend: p.config.upscale_backend,
            occlusion_two_pass: p.config.occlusion_two_pass,
            ..s
        },
        None => s,
    }
}

impl RenderSettings {
    /// Resolve the settings at the start under the starting preset's ceiling. `knobs`
    /// lists the knobs that presets govern, and `coarser` picks the coarser of a value and
    /// the finest allowed one on a scale.
    pub fn resolve<F: Fn(Scale, u32, u32) -> u32>(
        &mut self,
        world: &Declared,
        applied: &AppliedSliders,
        user: &UserSettings,
        ceiling: &QualityCeiling,
        knobs: &Vec<QualityCycle>,
        coarser: &F,
    )
        requires
            forall|s: Scale, v: u32, l: u32| call_requires(*coarser, (s, v, l)),
        ensures
            exists|governed: Governed| #[trigger]
                is_governed(
                    *coarser,
                    asked_at_start(*old(self), *world),
                    *ceiling,
                    knobs@,
                    governed,
                ) && *final(self) == starting_settings(
                    *old(self),
                    *world,
                    *applied,
                    *user,
                    governed,
                ),
    {
        let s: RenderSettings = declare(&*self, world);
        let (window_width, window_height): (u32, u32) = or_else(
            user.window_size,
            (s.window_width, s.window_height),
        );
        let frames_in_flight: usize = match user.frames_in_flight {
            Some(n) => n as usize,
            None => s.frames_in_flight,
        };
        let keymap: KeyMap = match user.keymap {
            Some(k) => k,
            None => KeyMap::default(),
        };
        let asked: Governed = Governed {
            post_config: s.post_config,
            render_scale: s.post_config.upscale_quality,
            shadow_map_size: s.authored_shadow_map_size,
            shadow_update: s.authored_shadow_update,
            shadow_distance: s.authored_shadow_distance,
            shadow_cascades: s.authored_shadow_cascades,
            anisotropy: s.authored_anisotropy,
        };
        assert(asked == asked_at_start(*self, *world));
        let governed: Governed = govern(&asked, ceiling, knobs, coarser);
        let over: PostProcessConfig = match world.post {
            Some(_) => stored_choices(governed.post_config, user),
            None => governed.post_config,
        };
        *self =
        RenderSettings {
            window_mode: or_else(user.window_mode, s.window_mode),
            window_width,
            window_height,
            vsync: or_else(user.vsync, s.vsync),
            frames_in_flight,
            render_scale: or_else(user.render_scale, governed.render_scale),
            shadow_map_size: or_else(user.shadow_map_size, governed.shadow_map_size),
            shadow_update: or_else(user.shadow_update, governed.shadow_update),
            shadow_distance: or_else(user.shadow_distance, governed.shadow_distance),
            shadow_cascades: or_else(user.shadow_cascades, governed.shadow_cascades),
            anisotropy: or_else(user.anisotropy, governed.anisotropy),
            upscale_backend: or_else(user.upscale_backend, s.upscale_backend),
            temporal_upscaling: or_else(user.temporal_upscaling, s.temporal_upscaling),
            hdr_display: or_else(user.hdr_display, s.hdr_display),
            hdr_pq: or_else(user.hdr_pq, s.hdr_pq),
            occlusion_two_pass: or_else(user.occlusion_two_pass, s.occlusion_two_pass),
            texture_cap: or_else(user.texture_cap, s.texture_cap),
            texture_budget: or_else(user.texture_budget, s.texture_budget),
            quality_preset: starting_preset(user),
            post_process: start_params(s.post_process, applied),
            post_config: stored_sliders(over, applied),
            ambient_intensity: applied.ambient_intensity,
            keymap,
            ..s
        };
    }
}

fn stored_choices(cfg: PostProcessConfig, u: &UserSettings) -> (r: PostProcessConfig)
    ensures
        r == with_stored_choices(cfg, *u),
{
    let mut indirect: PostProcessConfig = cfg;
    match u.ssgi {
        Some(on) => {
            set_toggle(&mut indirect, QualityToggle::Ssgi, on);
        },
        None => {},
    }
    PostProcessConfig {
        ssao: or_else(u.ssao, cfg.ssao),
        ssr: or_else(u.ssr, cfg.ssr),
        ray_traced_reflections: or_else(u.ray_traced_reflections, cfg.ray_traced_reflections),
        indirect_lighting: indirect.indirect_lighting,
        auto_exposure: or_else(u.auto_exposure, cfg.auto_exposure),
        ssgi_resolution: or_else(u.ssgi_resolution, cfg.ssgi_resolution),
        ssgi_rays: or_else(u.ssgi_rays, cfg.ssgi_rays),
        ssgi_steps: or_else(u.ssgi_steps, cfg.ssgi_steps),
        reflection_blur_resolution: or_else(
            u.reflection_blur_resolution,
            cfg.reflection_blur_resolution,
        ),
        ..cfg
    }
}

fn stored_sliders(cfg: PostProcessConfig, a: &AppliedSliders) -> (r: PostProcessConfig)
    ensures
        r == with_stored_sliders(cfg, *a),
{
    PostProcessConfig {
        ssao_radius: or_else(a.ssao_radius, cfg.ssao_radius),
        ssao_intensity: or_else(a.ssao_intensity, cfg.ssao_intensity),
        ssr_intensity: or_else(a.ssr_intensity, cfg.ssr_intensity),
        ssr_max_distance: or_else(a.ssr_max_distance, cfg.ssr_max_distance),
        ssgi_intensity: or_else(a.ssgi_intensity, cfg.ssgi_intensity),
        ssgi_max_distance: or_else(a.ssgi_max_distance, cfg.ssgi_max_distance),
        auto_exposure_min_ev: or_else(a.auto_exposure_min_ev, cfg.auto_exposure_min_ev),
        auto_exposure_max_ev: or_else(a.auto_exposure_max_ev, cfg.auto_exposure_max_ev),
        auto_exposure_speed: or_else(a.auto_exposure_speed, cfg.auto_exposure_speed),
        ..cfg
    }
}

fn start_params(base: PostProcessParams, a: &AppliedSliders) -> (r: PostProcessParams)
    ensures
        r == starting_params(base, *a),
{
    PostProcessParams {
        exposure: or_else(a.exposure, base.exposure),
        bloom_intensity: or_else(a.bloom_intensity, base.bloom_intensity),
        bloom_threshold: or_else(a.bloom_threshold, base.bloom_threshold),
        bloom_knee: or_else(a.bloom_knee, base.bloom_knee),
        vignette: or_else(a.vignette, base.vignette),
        lut_strength: or_else(a.lut_strength, base.lut_strength),
    }
}

/// The user-facing ambient value at the start: the stored one, else the world's, else
/// one.
pub fn starting_ambient(user: &UserSettings, post: Option<DeclaredPost>) -> (r: FloatBits)
    ensures
        r == chosen(
            user.ambient_intensity,
            match post {
                Some(p) => p.ambient_intensity,
                None => crate::float_bits::one(),
            },
        ),
{
    let world: FloatBits = match post {
        Some(p) => p.ambient_intensity,
        None => FloatBits::new(0x3f80_0000),
    };
    or_else(user.ambient_intensity, world)
}

/// What a row set is held: live by the next settings, or stored where another system
/// holds it.
pub open spec fn row_holds(
    change: RowChange,
    now: RenderSettings,
    next: RenderSettings,
    kept: UserSettings,
) -> bool {
    match change {
        RowChange::Vsync(_) => next.vsync == now.vsync,
        RowChange::WindowMode(_) => next.window_mode == now.window_mode,
        RowChange::WindowSize(_, _) => next.window_width == now.window_width && next.window_height
            == now.window_height,
        RowChange::RenderScale(_) => next.render_scale == now.render_scale,
        RowChange::MasterVolume(gain) => kept.master_volume == Some(gain),
        RowChange::Toggle(t, _) => toggle_state(next.post_config, t) == toggle_state(
            now.post_config,
            t,
        ),
        RowChange::Cycle(c, _) => knob(next.post_config, c) == knob(now.post_config, c),
        RowChange::TemporalUpscaling(_) => next.temporal_upscaling == now.temporal_upscaling,
        RowChange::HdrDisplay(_) => next.hdr_display == now.hdr_display,
        RowChange::HdrPq(_) => next.hdr_pq == now.hdr_pq,
        RowChange::ShadowMapSize(_) => next.shadow_map_size == now.shadow_map_size,
        RowChange::ShadowUpdate(_) => next.shadow_update == now.shadow_update,
        RowChange::ShadowDistance(_) => next.shadow_distance == now.shadow_distance,
        RowChange::ShadowCascades(_) => next.shadow_cascades == now.shadow_cascades,
        RowChange::Anisotropy(_) => next.anisotropy == now.anisotropy,
        RowChange::UpscaleBackend(_) => next.upscale_backend == now.upscale_backend,
        RowChange::FramesInFlight(_) => next.frames_in_flight == now.frames_in_flight,
        RowChange::OcclusionTwoPass(_) => next.occlusion_two_pass == now.occlusion_two_pass,
        RowChange::TextureQuality(_, _) => next.texture_cap == now.texture_cap
            && next.texture_budget == now.texture_budget,
    }
}

/// A row's choice survives a restart of a world that declares its post-processing: the
/// settings at the next start hold what the change set. The anti-aliasing knob is not
/// stored.
#[verifier::spinoff_prover]
#[verifier::rlimit(60)]
pub proof fn law_row_survives_restart(
    s: RenderSettings,
    d: RenderSettings,
    u: UserSettings,
    world: Declared,
    a: AppliedSliders,
    governed: Governed,
    change: RowChange,
)
    requires
        world.post is Some,
        !(change matches RowChange::Cycle(c, _) && c == QualityCycle::AaMode),
    ensures
        row_holds(
            change,
            row_settings(s, change),
            starting_settings(d, world, a, row_user(u, change), governed),
            row_user(u, change),
        ),
        preset_governed(change) ==> starting_settings(
            d,
            world,
            a,
            row_user(u, change),
            governed,
        ).quality_preset == QualityPreset::Custom,
{
    let kept = row_user(u, change);
    let next = starting_settings(d, world, a, kept, governed);
    let now = row_settings(s, change);
    match change {
        RowChange::Toggle(t, on) => {
            lemma_toggle_kept(u, t, on);
            law_toggle_reads_back(s.post_config, t, t, on);
            assert(row_holds(change, now, next, kept));
        },
        RowChange::Cycle(c, v) => {
            lemma_knob_kept(u, c, v);
            law_knob_reads_back(s.post_config, c, c, QualityToggle::Ssao, v);
            assert(row_holds(change, now, next, kept));
        },
        _ => {
            assert(row_holds(change, now, next, kept));
        },
    }
}

proof fn lemma_toggle_kept(u: UserSettings, t: QualityToggle, on: bool)
    ensures
        ({
            let kept = row_user(u, RowChange::Toggle(t, on));
            forall|cfg: PostProcessConfig, a: AppliedSliders|
                toggle_state(
                    #[trigger] with_stored_sliders(with_stored_choices(cfg, kept), a),
                    t,
                ) == if t == QualityToggle::Taa {
                    None
                } else {
                    Some(on)
                }
        }),
{
}

proof fn lemma_knob_kept(u: UserSettings, c: QualityCycle, v: u32)
    ensures
        ({
            let kept = row_user(u, RowChange::Cycle(c, v));
            forall|cfg: PostProcessConfig, a: AppliedSliders|
                c != QualityCycle::AaMode ==> knob(
                    #[trigger] with_stored_sliders(with_stored_choices(cfg, kept), a),
                    c,
                ) == v
        }),
{
}

/// The applied value of a stored slider.
pub open spec fn applied_slider(a: AppliedSliders, slider: Slider) -> Option<FloatBits> {
    match slider {
        Slider::Exposure => a.exposure,
        Slider::BloomIntensity => a.bloom_intensity,
        Slider::BloomThreshold => a.bloom_threshold,
        Slider::BloomKnee => a.bloom_knee,
        Slider::Vignette => a.vignette,
        Slider::LutStrength => a.lut_strength,
        Slider::AmbientIntensity => Some(a.ambient_intensity),
        Slider::SsaoRadius => a.ssao_radius,
        Slider::SsaoIntensity => a.ssao_intensity,
        Slider::SsrIntensity => a.ssr_intensity,
        Slider::SsrMaxDistance => a.ssr_max_distance,
        Slider::SsgiIntensity => a.ssgi_intensity,
        Slider::SsgiMaxDistance => a.ssgi_max_distance,
        Slider::AutoExposureMinEv => a.auto_exposure_min_ev,
        Slider::AutoExposureMaxEv => a.auto_exposure_max_ev,
        Slider::AutoExposureSpeed => a.auto_exposure_speed,
        Slider::MouseSensitivity => None,
    }
}

/// A slider survives a restart: where the stored value applies at the start as it did
/// when the slider was moved, the slider reads what it was moved to.
pub proof fn law_slider_survives_restart(
    s: RenderSettings,
    d: RenderSettings,
    u: UserSettings,
    world: Declared,
    a: AppliedSliders,
    governed: Governed,
    slider: Slider,
    v: FloatBits,
)
    requires
        applied_slider(a, slider) == Some(v),
    ensures
        slider_value(starting_settings(d, world, a, u, governed), slider) == slider_value(
            with_slider(s, slider, v),
            slider,
        ),
{
}

/// No stored slider is one that the configuration holds.
pub open spec fn leaves_config_alone(a: AppliedSliders) -> bool {
    &&& a.ssao_radius is None && a.ssao_intensity is None
    &&& a.ssr_intensity is None && a.ssr_max_distance is None
    &&& a.ssgi_intensity is None && a.ssgi_max_distance is None
    &&& a.auto_exposure_min_ev is None && a.auto_exposure_max_ev is None
    &&& a.auto_exposure_speed is None
}

/// The next start after a preset is picked derives the governed values from what the
/// world asks for exactly as picking it did, where the choice of the coarser setting
/// always gives the same one.
#[verifier::spinoff_prover]
#[verifier::rlimit(60)]
pub proof fn law_preset_survives_restart<F: Fn(Scale, u32, u32) -> u32>(
    coarser: F,
    s: RenderSettings,
    d: RenderSettings,
    u: UserSettings,
    world: Declared,
    a: AppliedSliders,
    choice: PresetChoice,
    knobs: Seq<QualityCycle>,
    picked: Governed,
    started: Governed,
)
    requires
        always_same(coarser),
        same_authored(s, declared_settings(d, world)),
        s.authored_post_config == authored_config(d, world),
        leaves_config_alone(a),
        is_governed(coarser, authored(s), choice.ceiling, knobs, picked),
        is_governed(coarser, asked_at_start(d, world), choice.ceiling, knobs, started),
    ensures
        ({
            let now = preset_settings(s, choice.preset, picked);
            let next = starting_settings(d, world, a, preset_user(u, choice.preset), started);
            &&& next.quality_preset == now.quality_preset
            &&& next.post_config == now.post_config
            &&& next.render_scale == now.render_scale
            &&& next.shadow_map_size == now.shadow_map_size
            &&& next.shadow_update == now.shadow_update
            &&& next.shadow_distance == now.shadow_distance
            &&& next.shadow_cascades == now.shadow_cascades
            &&& next.anisotropy == now.anisotropy
        }),
{
    lemma_asked_again(s, d, world);
    law_governed_is_unique(coarser, authored(s), choice.ceiling, knobs, picked, started);
    lemma_config_unchanged(preset_user(u, choice.preset), a, picked.post_config);
}

proof fn lemma_asked_again(s: RenderSettings, d: RenderSettings, world: Declared)
    requires
        same_authored(s, declared_settings(d, world)),
        s.authored_post_config == authored_config(d, world),
    ensures
        asked_at_start(d, world) == authored(s),
{
}

proof fn lemma_config_unchanged(u: UserSettings, a: AppliedSliders, cfg: PostProcessConfig)
    requires
        u == preset_user(u, u.quality_preset->0),
        u.quality_preset is Some,
        leaves_config_alone(a),
    ensures
        with_stored_choices(cfg, u) == cfg,
        with_stored_sliders(cfg, a) == cfg,
{
}

/// What the backend and the other systems hold of the settings that apply at once.
pub struct LiveState {
    pub vsync: bool,
    pub window_mode: WindowMode,
    pub window_size: (u32, u32),
    pub shadow_update: u32,
    pub shadow_distance: u32,
    pub shadow_cascades: u32,
    pub ambient: FloatBits,
    pub keymap: KeyMap,
    pub quality: PostProcessConfig,
    pub post_process: PostProcessParams,
    pub sensitivity: FloatBits,
    pub volume: FloatBits,
}

/// What is held after one thing was told.
pub open spec fn after_told(b: LiveState, action: SettingAction) -> LiveState {
    match action {
        SettingAction::SetVsync(on) => LiveState { vsync: on, ..b },
        SettingAction::SetWindowMode(mode) => LiveState { window_mode: mode, ..b },
        SettingAction::SetWindowSize(w, h) => LiveState { window_size: (w, h), ..b },
        SettingAction::SetShadowUpdate(v) => LiveState { shadow_update: v, ..b },
        SettingAction::SetShadowDistance(v) => LiveState { shadow_distance: v, ..b },
        SettingAction::SetShadowCascades(v) => LiveState { shadow_cascades: v, ..b },
        SettingAction::SetAmbient(v) => LiveState { ambient: v, ..b },
        SettingAction::SetKeymap(k) => LiveState { keymap: k, ..b },
        SettingAction::ApplyQuality(cfg) => LiveState { quality: cfg, ..b },
        SettingAction::UpdateQualityParams(cfg) => LiveState { quality: cfg, ..b },
        SettingAction::UpdatePostProcess(params) => LiveState { post_process: params, ..b },
        SettingAction::SendMouseSensitivity(v) => LiveState { sensitivity: v, ..b },
        SettingAction::SendMasterVolume(v) => LiveState { volume: v, ..b },
        SettingAction::RelabelPreset => b,
    }
}

/// What is held after all that was told, in order.
pub open spec fn after_all(b: LiveState, actions: Seq<SettingAction>) -> LiveState
    decreases actions.len(),
{
    if actions.len() == 0 {
        b
    } else {
        after_told(after_all(b, actions.drop_last()), actions.last())
    }
}

/// Whether what is held is what the settings say. The size of a window that covers the
/// display is the display's.
pub open spec fn mirrors(b: LiveState, s: RenderSettings) -> bool {
    &&& b.vsync == s.vsync
    &&& b.window_mode == s.window_mode
    &&& s.window_mode == WindowMode::Windowed ==> b.window_size == (
        s.window_width,
        s.window_height,
    )
    &&& b.shadow_update == s.shadow_update
    &&& b.shadow_distance == s.shadow_distance
    &&& b.shadow_cascades == s.shadow_cascades
    &&& b.ambient == s.ambient_intensity
    &&& b.keymap == s.keymap
    &&& b.quality == s.post_config
    &&& b.post_process == s.post_process
}

proof fn lemma_after_few(b: LiveState, actions: Seq<SettingAction>)
    ensures
        actions.len() == 0 ==> after_all(b, actions) == b,
        actions.len() == 1 ==> after_all(b, actions) == after_told(b, actions[0]),
        actions.len() == 2 ==> after_all(b, actions) == after_told(
            after_told(b, actions[0]),
            actions[1],
        ),
        actions.len() == 3 ==> after_all(b, actions) == after_told(
            after_told(after_told(b, actions[0]), actions[1]),
            actions[2],
        ),
        actions.len() == 5 ==> after_all(b, actions) == after_told(
            after_told(
                after_told(after_told(after_told(b, actions[0]), actions[1]), actions[2]),
                actions[3],
            ),
            actions[4],
        ),
{
    reveal_with_fuel(after_all, 6);
}

/// A changed row applies at once: where what the backend holds is what the settings say,
/// it still is after the row was changed and the backend was told. The master volume,
/// which no setting holds, is what the row was set to.
#[verifier::spinoff_prover]
#[verifier::rlimit(60)]
pub proof fn law_changed_row_applies_at_once(b: LiveState, s: RenderSettings, change: RowChange)
    requires
        mirrors(b, s),
    ensures
        mirrors(after_all(b, row_actions(s, change)), row_settings(s, change)),
        after_all(b, row_actions(s, change)).volume == match change {
            RowChange::MasterVolume(gain) => gain,
            _ => b.volume,
        },
        after_all(b, row_actions(s, change)).sensitivity == b.sensitivity,
{
    let actions = row_actions(s, change);
    assert(actions.len() <= 3);
    lemma_after_few(b, actions);
}

/// The quality features are rebuilt only from the configuration as it is after a change of
/// a row, and they are rebuilt wherever the row changes it.
pub proof fn law_rebuilt_from_the_changed_configuration(
    s: RenderSettings,
    change: RowChange,
    i: int,
)
    ensures
        ({
            let now = row_settings(s, change);
            let actions = row_actions(s, change);
            &&& 0 <= i < actions.len() ==> (actions[i] matches SettingAction::ApplyQuality(cfg)
                ==> cfg == now.post_config)
            &&& now.post_config != s.post_config ==> exists|j: int|
                0 <= j < actions.len() && #[trigger] actions[j] == SettingAction::ApplyQuality(
                    now.post_config,
                )
            &&& now.quality_preset != s.quality_preset ==> exists|j: int|
                0 <= j < actions.len() && #[trigger] actions[j] == SettingAction::RelabelPreset
        }),
{
    let now = row_settings(s, change);
    let actions = row_actions(s, change);
    match change {
        RowChange::Toggle(_, _) => {
            assert(actions[0] == SettingAction::RelabelPreset);
            assert(actions[1] == SettingAction::ApplyQuality(now.post_config));
        },
        RowChange::Cycle(_, _) => {
            assert(actions[0] == SettingAction::RelabelPreset);
            assert(actions[1] == SettingAction::ApplyQuality(now.post_config));
        },
        RowChange::ShadowUpdate(_) | RowChange::ShadowDistance(_) | RowChange::ShadowCascades(_) => {
            assert(actions[1] == SettingAction::RelabelPreset);
        },
        RowChange::RenderScale(_) | RowChange::ShadowMapSize(_) | RowChange::Anisotropy(_) => {
            assert(actions[0] == SettingAction::RelabelPreset);
        },
        _ => {},
    }
}

/// Whether a slider drives a parameter of a quality feature.
pub open spec fn drives_quality(slider: Slider) -> bool {
    match slider {
        Slider::SsaoRadius | Slider::SsaoIntensity | Slider::SsrIntensity
        | Slider::SsrMaxDistance | Slider::SsgiIntensity | Slider::SsgiMaxDistance
        | Slider::AutoExposureMinEv | Slider::AutoExposureMaxEv | Slider::AutoExposureSpeed => true,
        _ => false,
    }
}

/// A moved slider applies at once: where what the backend holds is what the settings say,
/// it still is after the slider was moved and the backend was told. The mouse sensitivity,
/// which the camera holds, is what the slider applies.
pub proof fn law_moved_slider_applies_at_once(
    b: LiveState,
    s: RenderSettings,
    slider: Slider,
    stored: FloatBits,
)
    requires
        mirrors(b, s),
    ensures
        ({
            let now = with_slider(s, slider, stored);
            let told = after_all(b, slider_actions(now, slider, stored, drives_quality(slider)));
            &&& mirrors(told, now)
            &&& told.volume == b.volume
            &&& told.sensitivity == if slider == Slider::MouseSensitivity {
                stored
            } else {
                b.sensitivity
            }
        }),
{
    let now = with_slider(s, slider, stored);
    let actions = slider_actions(now, slider, stored, drives_quality(slider));
    assert(actions.len() <= 2);
    lemma_after_few(b, actions);
}

/// A picked preset applies at once, as far as it can: where what the backend holds is what
/// the settings say, it still is after the preset was picked and the backend was told.
pub proof fn law_picked_preset_applies_at_once(
    b: LiveState,
    s: RenderSettings,
    preset: QualityPreset,
    governed: Governed,
)
    requires
        mirrors(b, s),
    ensures
        ({
            let now = preset_settings(s, preset, governed);
            &&& mirrors(after_all(b, preset_actions(now)), now)
            &&& now.quality_preset == preset
        }),
{
    let now = preset_settings(s, preset, governed);
    lemma_after_few(b, preset_actions(now));
}

/// Two changes are of the same row.
pub open spec fn same_row(a: RowChange, b: RowChange) -> bool {
    match (a, b) {
        (RowChange::Vsync(_), RowChange::Vsync(_)) => true,
        (RowChange::WindowMode(_), RowChange::WindowMode(_)) => true,
        (RowChange::WindowSize(_, _), RowChange::WindowSize(_, _)) => true,
        (RowChange::RenderScale(_), RowChange::RenderScale(_)) => true,
        (RowChange::MasterVolume(_), RowChange::MasterVolume(_)) => true,
        (RowChange::Toggle(t, _), RowChange::Toggle(u, _)) => t == u,
        (RowChange::Cycle(c, _), RowChange::Cycle(d, _)) => c == d,
        (RowChange::TemporalUpscaling(_), RowChange::TemporalUpscaling(_)) => true,
        (RowChange::HdrDisplay(_), RowChange::HdrDisplay(_)) => true,
        (RowChange::HdrPq(_), RowChange::HdrPq(_)) => true,
        (RowChange::ShadowMapSize(_), RowChange::ShadowMapSize(_)) => true,
        (RowChange::ShadowUpdate(_), RowChange::ShadowUpdate(_)) => true,
        (RowChange::ShadowDistance(_), RowChange::ShadowDistance(_)) => true,
        (RowChange::ShadowCascades(_), RowChange::ShadowCascades(_)) => true,
        (RowChange::Anisotropy(_), RowChange::Anisotropy(_)) => true,
        (RowChange::UpscaleBackend(_), RowChange::UpscaleBackend(_)) => true,
        (RowChange::FramesInFlight(_), RowChange::FramesInFlight(_)) => true,
        (RowChange::OcclusionTwoPass(_), RowChange::OcclusionTwoPass(_)) => true,
        (RowChange::TextureQuality(_, _), RowChange::TextureQuality(_, _)) => true,
        _ => false,
    }
}

/// Whether a choice is stored for the next launch. The anti-aliasing knob is not stored.
pub open spec fn stores_choice(u: UserSettings, change: RowChange) -> bool {
    match change {
        RowChange::Vsync(on) => u.vsync == Some(on),
        RowChange::WindowMode(mode) => u.window_mode == Some(mode),
        RowChange::WindowSize(w, h) => u.window_size == Some((w, h)),
        RowChange::RenderScale(v) => u.render_scale == Some(v),
        RowChange::MasterVolume(gain) => u.master_volume == Some(gain),
        RowChange::Toggle(t, on) => match t {
            QualityToggle::Taa => u.taa == Some(on),
            QualityToggle::Ssao => u.ssao == Some(on),
            QualityToggle::Ssr => u.ssr == Some(on),
            QualityToggle::RayTracedReflections => u.ray_traced_reflections == Some(on),
            QualityToggle::Ssgi => u.ssgi == Some(on),
            QualityToggle::AutoExposure => u.auto_exposure == Some(on),
        },
        RowChange::Cycle(c, v) => match c {
            QualityCycle::AaMode => true,
            QualityCycle::SsgiResolution => u.ssgi_resolution == Some(v),
            QualityCycle::SsgiRays => u.ssgi_rays == Some(v),
            QualityCycle::SsgiSteps => u.ssgi_steps == Some(v),
            QualityCycle::ReflectionBlurResolution => u.reflection_blur_resolution == Some(v),
        },
        RowChange::TemporalUpscaling(on) => u.temporal_upscaling == Some(on),
        RowChange::HdrDisplay(on) => u.hdr_display == Some(on),
        RowChange::HdrPq(on) => u.hdr_pq == Some(on),
        RowChange::ShadowMapSize(v) => u.shadow_map_size == Some(v),
        RowChange::ShadowUpdate(v) => u.shadow_update == Some(v),
        RowChange::ShadowDistance(v) => u.shadow_distance == Some(v),
        RowChange::ShadowCascades(v) => u.shadow_cascades == Some(v),
        RowChange::Anisotropy(v) => u.anisotropy == Some(v),
        RowChange::UpscaleBackend(v) => u.upscale_backend == Some(v),
        RowChange::FramesInFlight(v) => u.frames_in_flight == Some(v),
        RowChange::OcclusionTwoPass(on) => u.occlusion_two_pass == Some(on),
        RowChange::TextureQuality(cap, budget) => u.texture_cap == Some(cap) && u.texture_budget
            == Some(budget),
    }
}

/// A changed row sets its own value to what it was changed to, and no other row's.
#[verifier::spinoff_prover]
#[verifier::rlimit(60)]
pub proof fn law_row_sets_its_own_value(s: RenderSettings, change: RowChange)
    ensures
        ({
            let now = row_settings(s, change);
            &&& now.vsync == match change {
                RowChange::Vsync(v) => v,
                _ => s.vsync,
            }
            &&& now.window_mode == match change {
                RowChange::WindowMode(v) => v,
                _ => s.window_mode,
            }
            &&& now.render_scale == match change {
                RowChange::RenderScale(v) => v,
                _ => s.render_scale,
            }
            &&& now.temporal_upscaling == match change {
                RowChange::TemporalUpscaling(v) => v,
                _ => s.temporal_upscaling,
            }
            &&& now.hdr_display == match change {
                RowChange::HdrDisplay(v) => v,
                _ => s.hdr_display,
            }
            &&& now.hdr_pq == match change {
                RowChange::HdrPq(v) => v,
                _ => s.hdr_pq,
            }
            &&& now.shadow_map_size == match change {
                RowChange::ShadowMapSize(v) => v,
                _ => s.shadow_map_size,
            }
            &&& now.shadow_update == match change {
                RowChange::ShadowUpdate(v) => v,
                _ => s.shadow_update,
            }
            &&& now.shadow_distance == match change {
                RowChange::ShadowDistance(v) => v,
                _ => s.shadow_distance,
            }
            &&& now.shadow_cascades == match change {
                RowChange::ShadowCascades(v) => v,
                _ => s.shadow_cascades,
            }
            &&& now.anisotropy == match change {
                RowChange::Anisotropy(v) => v,
                _ => s.anisotropy,
            }
            &&& now.upscale_backend == match change {
                RowChange::UpscaleBackend(v) => v,
                _ => s.upscale_backend,
            }
            &&& now.frames_in_flight == match change {
                RowChange::FramesInFlight(v) => v as usize,
                _ => s.frames_in_flight,
            }
            &&& now.occlusion_two_pass == match change {
                RowChange::OcclusionTwoPass(v) => v,
                _ => s.occlusion_two_pass,
            }
            &&& now.window_width == match change {
                RowChange::WindowSize(v, _) => v,
                _ => s.window_width,
            }
            &&& now.window_height == match change {
                RowChange::WindowSize(_, v) => v,
                _ => s.window_height,
            }
            &&& now.texture_cap == match change {
                RowChange::TextureQuality(v, _) => v,
                _ => s.texture_cap,
            }
            &&& now.texture_budget == match change {
                RowChange::TextureQuality(_, v) => v,
                _ => s.texture_budget,
            }
            &&& !(change is Toggle) && !(change is Cycle) ==> now.post_config == s.post_config
            &&& now.post_process == s.post_process
            &&& now.ambient_intensity == s.ambient_intensity
            &&& now.keymap == s.keymap
        }),
{
}

/// A changed quality row sets its own feature or knob, and no other one's.
#[verifier::spinoff_prover]
#[verifier::rlimit(60)]
pub proof fn law_quality_row_sets_its_own_feature(s: RenderSettings, change: RowChange)
    ensures
        ({
            let was = s.post_config;
            let now = row_settings(s, change).post_config;
            &&& now.ssao == match change {
                RowChange::Toggle(QualityToggle::Ssao, on) => on,
                _ => was.ssao,
            }
            &&& now.ssr == match change {
                RowChange::Toggle(QualityToggle::Ssr, on) => on,
                _ => was.ssr,
            }
            &&& now.ray_traced_reflections == match change {
                RowChange::Toggle(QualityToggle::RayTracedReflections, on) => on,
                _ => was.ray_traced_reflections,
            }
            &&& now.auto_exposure == match change {
                RowChange::Toggle(QualityToggle::AutoExposure, on) => on,
                _ => was.auto_exposure,
            }
            &&& (now.indirect_lighting == crate::quality::IndirectLighting::Ssgi) == match change {
                RowChange::Toggle(QualityToggle::Ssgi, on) => on,
                _ => was.indirect_lighting == crate::quality::IndirectLighting::Ssgi,
            }
            &&& now.aa_mode == match change {
                RowChange::Cycle(QualityCycle::AaMode, v) => v,
                _ => was.aa_mode,
            }
            &&& now.ssgi_resolution == match change {
                RowChange::Cycle(QualityCycle::SsgiResolution, v) => v,
                _ => was.ssgi_resolution,
            }
            &&& now.ssgi_rays == match change {
                RowChange::Cycle(QualityCycle::SsgiRays, v) => v,
                _ => was.ssgi_rays,
            }
            &&& now.ssgi_steps == match change {
                RowChange::Cycle(QualityCycle::SsgiSteps, v) => v,
                _ => was.ssgi_steps,
            }
            &&& now.reflection_blur_resolution == match change {
                RowChange::Cycle(QualityCycle::ReflectionBlurResolution, v) => v,
                _ => was.reflection_blur_resolution,
            }
        }),
{
}

/// A changed row stores what it was changed to, and every other row stores what it did.
#[verifier::spinoff_prover]
#[verifier::rlimit(60)]
pub proof fn law_row_stores_its_own_choice(u: UserSettings, change: RowChange, other: RowChange)
    ensures
        stores_choice(row_user(u, change), change),
        !same_row(change, other) ==> (stores_choice(row_user(u, change), other) <==> stores_choice(
            u,
            other,
        )),
        row_user(u, change).keymap == u.keymap,
{
}

/// What a slider's value is stored as: the user-facing value, and of the mouse sensitivity
/// the applied one.
pub open spec fn slider_stored(u: UserSettings, slider: Slider) -> Option<FloatBits> {
    match slider {
        Slider::Exposure => u.exposure_ev,
        Slider::BloomIntensity => u.bloom_intensity,
        Slider::BloomThreshold => u.bloom_threshold,
        Slider::BloomKnee => u.bloom_knee,
        Slider::Vignette => u.vignette,
        Slider::LutStrength => u.lut_strength,
        Slider::AmbientIntensity => u.ambient_intensity,
        Slider::SsaoRadius => u.ssao_radius,
        Slider::SsaoIntensity => u.ssao_intensity,
        Slider::SsrIntensity => u.ssr_intensity,
        Slider::SsrMaxDistance => u.ssr_max_distance,
        Slider::SsgiIntensity => u.ssgi_intensity,
        Slider::SsgiMaxDistance => u.ssgi_max_distance,
        Slider::AutoExposureMinEv => u.auto_exposure_min_ev,
        Slider::AutoExposureMaxEv => u.auto_exposure_max_ev,
        Slider::AutoExposureSpeed => u.auto_exposure_speed,
        Slider::MouseSensitivity => u.mouse_sensitivity,
    }
}

/// A slider whose drag ended is stored, and no other slider and no row with it.
#[verifier::spinoff_prover]
pub proof fn law_slider_is_stored(
    u: UserSettings,
    slider: Slider,
    other: Slider,
    row: RowChange,
    value: FloatBits,
    stored: FloatBits,
)
    ensures
        slider_stored(slider_user(u, slider, value, stored), slider) == Some(
            if slider == Slider::MouseSensitivity {
                stored
            } else {
                value
            },
        ),
        slider != other ==> slider_stored(slider_user(u, slider, value, stored), other)
            == slider_stored(u, other),
        stores_choice(slider_user(u, slider, value, stored), row) <==> stores_choice(u, row),
        slider_user(u, slider, value, stored).quality_preset == u.quality_preset,
{
}

/// A moved slider changes its own value alone: what rows show, the preset, the keys and what
/// the world asks for stay.
#[verifier::spinoff_prover]
#[verifier::rlimit(60)]
pub proof fn law_slider_changes_no_row(s: RenderSettings, slider: Slider, v: FloatBits)
    ensures
        ({
            let now = with_slider(s, slider, v);
            &&& now == (RenderSettings {
                post_process: now.post_process,
                post_config: now.post_config,
                ambient_intensity: now.ambient_intensity,
                ..s
            })
            &&& drives_quality(slider) ==> now.post_process == s.post_process
            &&& !drives_quality(slider) ==> now.post_config == s.post_config
            &&& slider != Slider::AmbientIntensity ==> now.ambient_intensity == s.ambient_intensity
            &&& now.post_config.ssao == s.post_config.ssao
            &&& now.post_config.ssr == s.post_config.ssr
            &&& now.post_config.ray_traced_reflections == s.post_config.ray_traced_reflections
            &&& now.post_config.indirect_lighting == s.post_config.indirect_lighting
            &&& now.post_config.auto_exposure == s.post_config.auto_exposure
            &&& now.post_config.aa_mode == s.post_config.aa_mode
            &&& now.post_config.ssgi_resolution == s.post_config.ssgi_resolution
            &&& now.post_config.ssgi_rays == s.post_config.ssgi_rays
            &&& now.post_config.ssgi_steps == s.post_config.ssgi_steps
            &&& now.post_config.reflection_blur_resolution
                == s.post_config.reflection_blur_resolution
        }),
{
}

/// The live value of a slider is that of the parameter it is named after.
pub proof fn law_slider_drives_its_parameter(s: RenderSettings, v: FloatBits)
    ensures
        with_slider(s, Slider::Exposure, v).post_process.exposure == v,
        with_slider(s, Slider::BloomIntensity, v).post_process.bloom_intensity == v,
        with_slider(s, Slider::BloomThreshold, v).post_process.bloom_threshold == v,
        with_slider(s, Slider::BloomKnee, v).post_process.bloom_knee == v,
        with_slider(s, Slider::Vignette, v).post_process.vignette == v,
        with_slider(s, Slider::LutStrength, v).post_process.lut_strength == v,
        with_slider(s, Slider::AmbientIntensity, v).ambient_intensity == v,
        with_slider(s, Slider::SsaoRadius, v).post_config.ssao_radius == v,
        with_slider(s, Slider::SsaoIntensity, v).post_config.ssao_intensity == v,
        with_slider(s, Slider::SsrIntensity, v).post_config.ssr_intensity == v,
        with_slider(s, Slider::SsrMaxDistance, v).post_config.ssr_max_distance == v,
        with_slider(s, Slider::SsgiIntensity, v).post_config.ssgi_intensity == v,
        with_slider(s, Slider::SsgiMaxDistance, v).post_config.ssgi_max_distance == v,
        with_slider(s, Slider::AutoExposureMinEv, v).post_config.auto_exposure_min_ev == v,
        with_slider(s, Slider::AutoExposureMaxEv, v).post_config.auto_exposure_max_ev == v,
        with_slider(s, Slider::AutoExposureSpeed, v).post_config.auto_exposure_speed == v,
{
}

/// A picked preset forgets every stored choice of a row that presets govern, and keeps
/// those of the others.
#[verifier::spinoff_prover]
pub proof fn law_preset_forgets_governed_choices(
    u: UserSettings,
    preset: QualityPreset,
    row: RowChange,
    slider: Slider,
)
    ensures
        preset_governed(row) && !(row matches RowChange::Cycle(c, _) && c == QualityCycle::AaMode)
            ==> !stores_choice(preset_user(u, preset), row),
        !preset_governed(row) ==> (stores_choice(preset_user(u, preset), row) <==> stores_choice(
            u,
            row,
        )),
        slider_stored(preset_user(u, preset), slider) == slider_stored(u, slider),
        preset_user(u, preset).quality_preset == Some(preset),
        preset_user(u, preset).keymap == u.keymap,
{
}

/// The rows that a preset governs: the render scale, the quality toggles and knobs, the
/// shadows and the anisotropy.
pub proof fn law_preset_governs_these_rows(change: RowChange)
    ensures
        preset_governed(change) <==> {
            ||| change is RenderScale
            ||| change is Toggle
            ||| change is Cycle
            ||| change is ShadowMapSize
            ||| change is ShadowUpdate
            ||| change is ShadowDistance
            ||| change is ShadowCascades
            ||| change is Anisotropy
        },
{
}

/// A changed row tells nothing that is not its own: only a quality row has the features
/// rebuilt, only the exposure's toggle has the post-processing updated, only a row of the
/// window speaks of the window, a size is told only to a window that has one, and a row that
/// needs a restart tells at most the preset's new name. Nothing is told twice.
#[verifier::spinoff_prover]
#[verifier::rlimit(60)]
pub proof fn law_row_tells_only_its_own(s: RenderSettings, change: RowChange, i: int)
    requires
        0 <= i < row_actions(s, change).len(),
    ensures
        ({
            let told = row_actions(s, change);
            &&& told[i] is ApplyQuality ==> change is Toggle || change is Cycle
            &&& told[i] is UpdatePostProcess ==> change is Toggle && change->Toggle_0
                == QualityToggle::AutoExposure
            &&& told[i] is SetVsync ==> change is Vsync
            &&& told[i] is SetWindowMode ==> change is WindowMode
            &&& told[i] is SetWindowSize ==> row_settings(s, change).window_mode
                == WindowMode::Windowed && (change is WindowMode || change is WindowSize)
            &&& told[i] is SetShadowUpdate ==> change is ShadowUpdate
            &&& told[i] is SetShadowDistance ==> change is ShadowDistance
            &&& told[i] is SetShadowCascades ==> change is ShadowCascades
            &&& told[i] is SendMasterVolume ==> change is MasterVolume
            &&& told[i] is RelabelPreset ==> preset_governed(change)
            &&& !(told[i] is SetAmbient) && !(told[i] is SetKeymap)
                && !(told[i] is UpdateQualityParams) && !(told[i] is SendMouseSensitivity)
            &&& told.len() <= 3
            &&& told.len() == 3 ==> change is Toggle
            &&& i > 0 ==> told[i] != told[0]
            &&& i > 1 ==> told[i] != told[1]
        }),
{
}

/// The mode of a window is told before its size.
pub proof fn law_window_mode_is_told_before_the_size(s: RenderSettings, w: u32, h: u32)
    ensures
        row_actions(s, RowChange::WindowMode(WindowMode::Windowed))[0] is SetWindowMode,
        row_actions(s, RowChange::WindowMode(WindowMode::Windowed))[1]
            == SettingAction::SetWindowSize(s.window_width, s.window_height),
        s.window_mode == WindowMode::Windowed ==> row_actions(s, RowChange::WindowSize(w, h)).len()
            == 1,
        s.window_mode != WindowMode::Windowed ==> row_actions(s, RowChange::WindowSize(w, h)).len()
            == 0,
{
}

/// A moved slider has no feature rebuilt: one of a quality feature updates the features'
/// parameters alone, any other but the mouse's updates the post-processing, and the ambient
/// light and the mouse sensitivity are told as they apply.
pub proof fn law_slider_tells_only_its_own(
    now: RenderSettings,
    slider: Slider,
    stored: FloatBits,
    quality_param: bool,
    i: int,
)
    requires
        0 <= i < slider_actions(now, slider, stored, quality_param).len(),
    ensures
        ({
            let told = slider_actions(now, slider, stored, quality_param);
            &&& told[i] is UpdateQualityParams ==> quality_param
            &&& told[i] is UpdatePostProcess ==> !quality_param && slider
                != Slider::MouseSensitivity
            &&& told[i] is SetAmbient ==> slider == Slider::AmbientIntensity
            &&& told[i] is SendMouseSensitivity ==> slider == Slider::MouseSensitivity
            &&& told[i] is UpdateQualityParams || told[i] is UpdatePostProcess
                || told[i] is SetAmbient || told[i] is SendMouseSensitivity
            &&& told.len() <= 2
            &&& i > 0 ==> told[i] != told[0]
        }),
{
}

/// A slider is known by the name of what it drives.
pub proof fn law_sliders_are_known_by_their_names()
    ensures
        slider_text(Slider::Exposure) == "exposure"@,
        slider_text(Slider::BloomIntensity) == "bloom_intensity"@,
        slider_text(Slider::BloomThreshold) == "bloom_threshold"@,
        slider_text(Slider::BloomKnee) == "bloom_knee"@,
        slider_text(Slider::Vignette) == "vignette"@,
        slider_text(Slider::LutStrength) == "lut_strength"@,
        slider_text(Slider::AmbientIntensity) == "ambient_intensity"@,
        slider_text(Slider::SsaoRadius) == "ssao_radius"@,
        slider_text(Slider::SsaoIntensity) == "ssao_intensity"@,
        slider_text(Slider::SsrIntensity) == "ssr_intensity"@,
        slider_text(Slider::SsrMaxDistance) == "ssr_max_distance"@,
        slider_text(Slider::SsgiIntensity) == "ssgi_intensity"@,
        slider_text(Slider::SsgiMaxDistance) == "ssgi_max_distance"@,
        slider_text(Slider::AutoExposureMinEv) == "auto_exposure_min_ev"@,
        slider_text(Slider::AutoExposureMaxEv) == "auto_exposure_max_ev"@,
        slider_text(Slider::AutoExposureSpeed) == "auto_exposure_speed"@,
        slider_text(Slider::MouseSensitivity) == "mouse_sensitivity"@,
{
}

/// A picked preset takes each governed value from what its ceiling makes of what the world
/// asks for under the same name, and leaves everything else as it is.
#[verifier::spinoff_prover]
#[verifier::rlimit(60)]
pub proof fn law_preset_takes_governed_values(
    s: RenderSettings,
    preset: QualityPreset,
    governed: Governed,
)
    ensures
        authored(s).post_config == s.authored_post_config,
        authored(s).render_scale == s.authored_post_config.upscale_quality,
        authored(s).shadow_map_size == s.authored_shadow_map_size,
        authored(s).shadow_update == s.authored_shadow_update,
        authored(s).shadow_distance == s.authored_shadow_distance,
        authored(s).shadow_cascades == s.authored_shadow_cascades,
        authored(s).anisotropy == s.authored_anisotropy,
        ({
            let now = preset_settings(s, preset, governed);
            &&& now.quality_preset == preset
            &&& now.post_config == governed.post_config
            &&& now.render_scale == governed.render_scale
            &&& now.shadow_map_size == governed.shadow_map_size
            &&& now.shadow_update == governed.shadow_update
            &&& now.shadow_distance == governed.shadow_distance
            &&& now.shadow_cascades == governed.shadow_cascades
            &&& now.anisotropy == governed.anisotropy
            &&& now.window_mode == s.window_mode
            &&& now.window_width == s.window_width
            &&& now.window_height == s.window_height
            &&& now.temporal_upscaling == s.temporal_upscaling
            &&& now.hdr_pq == s.hdr_pq
            &&& now.occlusion_two_pass == s.occlusion_two_pass
            &&& now.texture_budget == s.texture_budget
            &&& now.vsync == s.vsync
            &&& now.frames_in_flight == s.frames_in_flight
            &&& now.upscale_backend == s.upscale_backend
            &&& now.hdr_display == s.hdr_display
            &&& now.texture_cap == s.texture_cap
            &&& now.post_process == s.post_process
            &&& now.ambient_intensity == s.ambient_intensity
            &&& now.keymap == s.keymap
            &&& same_authored(now, s)
        }),
{
}

/// A picked preset rebuilds the features once, updates the post-processing once and tells the
/// shadows once each.
pub proof fn law_preset_tells_once(now: RenderSettings)
    ensures
        preset_actions(now).len() == 5,
        preset_actions(now)[0] == SettingAction::ApplyQuality(now.post_config),
        preset_actions(now)[1] == SettingAction::UpdatePostProcess(now.post_process),
        preset_actions(now)[2] == SettingAction::SetShadowUpdate(now.shadow_update),
        preset_actions(now)[3] == SettingAction::SetShadowDistance(now.shadow_distance),
        preset_actions(now)[4] == SettingAction::SetShadowCascades(now.shadow_cascades),
{
}

/// The partner of a rebind is another action, and the one that held the key; where no other
/// action held it there is none.
pub proof fn law_rebind_partner_held_the_key(
    map: KeyMap,
    action: Bindable,
    key: Key,
    b: Bindable,
)
    requires
        map.injective(),
    ensures
        rebind_victim(map, action, key) == Some(b) <==> b != action && map.bound(b) == key,
{
    if map.bound(b) == key {
        crate::keymap::law_lookup_inverts_binding(map, b);
    }
    if map.holder(key) is Some {
        assert(map.bound(map.holder(key)->0) == key);
    }
}

/// A stored choice wins over what the world declares, and that over the default, for each
/// setting that no preset governs.
#[verifier::spinoff_prover]
#[verifier::rlimit(80)]
pub proof fn law_stored_wins_over_declared_over_default(
    d: RenderSettings,
    world: Declared,
    a: AppliedSliders,
    u: UserSettings,
    governed: Governed,
)
    ensures
        ({
            let s = starting_settings(d, world, a, u, governed);
            &&& s.window_mode == match (u.window_mode, world.window) {
                (Some(v), _) => v,
                (None, Some(w)) => w.0,
                (None, None) => d.window_mode,
            }
            &&& s.window_width == match (u.window_size, world.window) {
                (Some(v), _) => v.0,
                (None, Some(w)) => w.1,
                (None, None) => d.window_width,
            }
            &&& s.window_height == match (u.window_size, world.window) {
                (Some(v), _) => v.1,
                (None, Some(w)) => w.2,
                (None, None) => d.window_height,
            }
            &&& s.vsync == match (u.vsync, world.graphics) {
                (Some(v), _) => v,
                (None, Some(g)) => g.vsync,
                (None, None) => d.vsync,
            }
            &&& s.frames_in_flight == match (u.frames_in_flight, world.graphics) {
                (Some(v), _) => v as usize,
                (None, Some(g)) => g.frames_in_flight as usize,
                (None, None) => d.frames_in_flight,
            }
            &&& s.texture_cap == match (u.texture_cap, world.streaming) {
                (Some(v), _) => v,
                (None, Some(t)) => t.0,
                (None, None) => d.texture_cap,
            }
            &&& s.texture_budget == match (u.texture_budget, world.streaming) {
                (Some(v), _) => v,
                (None, Some(t)) => t.1,
                (None, None) => d.texture_budget,
            }
            &&& s.upscale_backend == match (u.upscale_backend, world.post) {
                (Some(v), _) => v,
                (None, Some(p)) => p.config.upscale_backend,
                (None, None) => d.upscale_backend,
            }
            &&& s.temporal_upscaling == match (u.temporal_upscaling, world.post) {
                (Some(v), _) => v,
                (None, Some(p)) => p.config.temporal_upscaling,
                (None, None) => d.temporal_upscaling,
            }
            &&& s.hdr_display == match (u.hdr_display, world.post) {
                (Some(v), _) => v,
                (None, Some(p)) => p.config.hdr_display,
                (None, None) => d.hdr_display,
            }
            &&& s.hdr_pq == match (u.hdr_pq, world.post) {
                (Some(v), _) => v,
                (None, Some(p)) => p.config.hdr_pq,
                (None, None) => d.hdr_pq,
            }
            &&& s.occlusion_two_pass == match (u.occlusion_two_pass, world.post) {
                (Some(v), _) => v,
                (None, Some(p)) => p.config.occlusion_two_pass,
                (None, None) => d.occlusion_two_pass,
            }
            &&& u.keymap is Some ==> s.keymap == u.keymap->0
            &&& u.keymap is None ==> s.keymap == default_keymap()
            &&& u.quality_preset is Some ==> s.quality_preset == u.quality_preset->0
            &&& u.quality_preset is None ==> s.quality_preset == QualityPreset::Auto
            &&& s.ambient_intensity == a.ambient_intensity
        }),
{
}

/// A stored choice wins over what the ceiling makes of what the world declares, for each
/// setting that a preset governs; and what presets start from is what the world declares.
#[verifier::spinoff_prover]
#[verifier::rlimit(80)]
pub proof fn law_stored_wins_over_the_ceiling(
    d: RenderSettings,
    world: Declared,
    a: AppliedSliders,
    u: UserSettings,
    governed: Governed,
)
    ensures
        ({
            let s = starting_settings(d, world, a, u, governed);
            let asked = asked_at_start(d, world);
            &&& u.render_scale is Some ==> s.render_scale == u.render_scale->0
            &&& u.render_scale is None ==> s.render_scale == governed.render_scale
            &&& u.shadow_map_size is Some ==> s.shadow_map_size == u.shadow_map_size->0
            &&& u.shadow_map_size is None ==> s.shadow_map_size == governed.shadow_map_size
            &&& u.shadow_update is Some ==> s.shadow_update == u.shadow_update->0
            &&& u.shadow_update is None ==> s.shadow_update == governed.shadow_update
            &&& u.shadow_distance is Some ==> s.shadow_distance == u.shadow_distance->0
            &&& u.shadow_distance is None ==> s.shadow_distance == governed.shadow_distance
            &&& u.shadow_cascades is Some ==> s.shadow_cascades == u.shadow_cascades->0
            &&& u.shadow_cascades is None ==> s.shadow_cascades == governed.shadow_cascades
            &&& u.anisotropy is Some ==> s.anisotropy == u.anisotropy->0
            &&& u.anisotropy is None ==> s.anisotropy == governed.anisotropy
            &&& world.post matches Some(p) ==> {
                &&& asked.post_config == p.config
                &&& asked.render_scale == p.config.upscale_quality
                &&& s.authored_post_config == p.config
            }
            &&& world.post is None ==> {
                &&& asked.post_config == d.post_config
                &&& asked.render_scale == d.post_config.upscale_quality
                &&& s.authored_post_config == d.authored_post_config
            }
            &&& world.graphics matches Some(g) ==> {
                &&& asked.shadow_map_size == g.shadow_map_size
                &&& asked.shadow_update == g.shadow_update
                &&& asked.shadow_distance == g.shadow_distance
                &&& asked.shadow_cascades == g.shadow_cascades
                &&& asked.anisotropy == g.anisotropy
                &&& s.authored_shadow_map_size == g.shadow_map_size
                &&& s.authored_shadow_update == g.shadow_update
                &&& s.authored_shadow_distance == g.shadow_distance
                &&& s.authored_shadow_cascades == g.shadow_cascades
                &&& s.authored_anisotropy == g.anisotropy
            }
            &&& world.graphics is None ==> {
                &&& asked.shadow_map_size == d.authored_shadow_map_size
                &&& asked.shadow_update == d.authored_shadow_update
                &&& asked.shadow_distance == d.authored_shadow_distance
                &&& asked.shadow_cascades == d.authored_shadow_cascades
                &&& asked.anisotropy == d.authored_anisotropy
            }
        }),
{
}

/// A stored toggle or knob wins over the configuration under the ceiling where the world
/// declares one, and a stored slider wins in any case, each over its own value.
#[verifier::spinoff_prover]
#[verifier::rlimit(80)]
pub proof fn law_stored_choices_win_in_the_configuration(
    world: Declared,
    a: AppliedSliders,
    u: UserSettings,
    under: PostProcessConfig,
)
    ensures
        ({
            let c = starting_config(world, a, u, under);
            let stored = world.post is Some;
            &&& c.ssao == if stored && u.ssao is Some {
                u.ssao->0
            } else {
                under.ssao
            }
            &&& c.ssr == if stored && u.ssr is Some {
                u.ssr->0
            } else {
                under.ssr
            }
            &&& c.ray_traced_reflections == if stored && u.ray_traced_reflections is Some {
                u.ray_traced_reflections->0
            } else {
                under.ray_traced_reflections
            }
            &&& (c.indirect_lighting == crate::quality::IndirectLighting::Ssgi) == if stored
                && u.ssgi is Some {
                u.ssgi->0
            } else {
                under.indirect_lighting == crate::quality::IndirectLighting::Ssgi
            }
            &&& c.auto_exposure == if stored && u.auto_exposure is Some {
                u.auto_exposure->0
            } else {
                under.auto_exposure
            }
            &&& c.ssgi_resolution == if stored && u.ssgi_resolution is Some {
                u.ssgi_resolution->0
            } else {
                under.ssgi_resolution
            }
            &&& c.ssgi_rays == if stored && u.ssgi_rays is Some {
                u.ssgi_rays->0
            } else {
                under.ssgi_rays
            }
            &&& c.ssgi_steps == if stored && u.ssgi_steps is Some {
                u.ssgi_steps->0
            } else {
                under.ssgi_steps
            }
            &&& c.reflection_blur_resolution == if stored && u.reflection_blur_resolution is Some {
                u.reflection_blur_resolution->0
            } else {
                under.reflection_blur_resolution
            }
            &&& c.aa_mode == under.aa_mode
            &&& c.upscale_quality == under.upscale_quality
            &&& c.exposure_ev == under.exposure_ev
            &&& a.ssao_radius is Some ==> c.ssao_radius == a.ssao_radius->0
            &&& a.ssao_radius is None ==> c.ssao_radius == under.ssao_radius
            &&& a.ssao_intensity is Some ==> c.ssao_intensity == a.ssao_intensity->0
            &&& a.ssao_intensity is None ==> c.ssao_intensity == under.ssao_intensity
            &&& a.ssr_intensity is Some ==> c.ssr_intensity == a.ssr_intensity->0
            &&& a.ssr_intensity is None ==> c.ssr_intensity == under.ssr_intensity
            &&& a.ssr_max_distance is Some ==> c.ssr_max_distance == a.ssr_max_distance->0
            &&& a.ssr_max_distance is None ==> c.ssr_max_distance == under.ssr_max_distance
            &&& a.ssgi_intensity is Some ==> c.ssgi_intensity == a.ssgi_intensity->0
            &&& a.ssgi_intensity is None ==> c.ssgi_intensity == under.ssgi_intensity
            &&& a.ssgi_max_distance is Some ==> c.ssgi_max_distance == a.ssgi_max_distance->0
            &&& a.ssgi_max_distance is None ==> c.ssgi_max_distance == under.ssgi_max_distance
            &&& a.auto_exposure_min_ev is Some ==> c.auto_exposure_min_ev
                == a.auto_exposure_min_ev->0
            &&& a.auto_exposure_min_ev is None ==> c.auto_exposure_min_ev
                == under.auto_exposure_min_ev
            &&& a.auto_exposure_max_ev is Some ==> c.auto_exposure_max_ev
                == a.auto_exposure_max_ev->0
            &&& a.auto_exposure_max_ev is None ==> c.auto_exposure_max_ev
                == under.auto_exposure_max_ev
            &&& a.auto_exposure_speed is Some ==> c.auto_exposure_speed == a.auto_exposure_speed->0
            &&& a.auto_exposure_speed is None ==> c.auto_exposure_speed
                == under.auto_exposure_speed
        }),
{
}

/// A stored slider of the post-processing wins over what the world declares, each over its
/// own parameter.
pub proof fn law_stored_sliders_win_in_the_parameters(
    d: RenderSettings,
    world: Declared,
    a: AppliedSliders,
    u: UserSettings,
    governed: Governed,
)
    ensures
        ({
            let p = starting_settings(d, world, a, u, governed).post_process;
            let base = match world.post {
                Some(w) => w.params,
                None => d.post_process,
            };
            &&& a.exposure is Some ==> p.exposure == a.exposure->0
            &&& a.exposure is None ==> p.exposure == base.exposure
            &&& a.bloom_intensity is Some ==> p.bloom_intensity == a.bloom_intensity->0
            &&& a.bloom_intensity is None ==> p.bloom_intensity == base.bloom_intensity
            &&& a.bloom_threshold is Some ==> p.bloom_threshold == a.bloom_threshold->0
            &&& a.bloom_threshold is None ==> p.bloom_threshold == base.bloom_threshold
            &&& a.bloom_knee is Some ==> p.bloom_knee == a.bloom_knee->0
            &&& a.bloom_knee is None ==> p.bloom_knee == base.bloom_knee
            &&& a.vignette is Some ==> p.vignette == a.vignette->0
            &&& a.vignette is None ==> p.vignette == base.vignette
            &&& a.lut_strength is Some ==> p.lut_strength == a.lut_strength->0
            &&& a.lut_strength is None ==> p.lut_strength == base.lut_strength
        }),
{
}

} // verus!
