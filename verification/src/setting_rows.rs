//! The rows of the settings menu that step through options: the row that a setting
//! names, the state of the two-state ones and what an option of theirs changes.

use crate::quality::{
    QualityCycle, QualityToggle, cycle_text, law_cycle_texts_distinct, law_toggle_texts_distinct,
    toggle_on, toggle_state, toggle_text,
};
use crate::settings::{RenderSettings, RowChange, is_on, row_settings};
use crate::text::same_text;
use vstd::prelude::*;

verus! {

/// A row that steps through options.
#[derive(Debug, Clone, Copy, PartialEq, Eq, Structural)]
pub enum Row {
    Vsync,
    WindowMode,
    WindowSize,
    RenderScale,
    MasterVolume,
    Toggle(QualityToggle),
    Cycle(QualityCycle),
    TemporalUpscaling,
    HdrDisplay,
    HdrPq,
    ShadowMapSize,
    ShadowUpdate,
    ShadowDistance,
    ShadowCascades,
    Anisotropy,
    UpscaleBackend,
    FramesInFlight,
    OcclusionTwoPass,
    TextureQuality,
}

/// The setting that a row changes.
pub open spec fn row_text(row: Row) -> Seq<char> {
    match row {
        Row::Vsync => "vsync"@,
        Row::WindowMode => "window_mode"@,
        Row::WindowSize => "window_size"@,
        Row::RenderScale => "render_scale"@,
        Row::MasterVolume => "master_volume"@,
        Row::Toggle(t) => toggle_text(t),
        Row::Cycle(c) => cycle_text(c),
        Row::TemporalUpscaling => "temporal_upscaling"@,
        Row::HdrDisplay => "hdr_display"@,
        Row::HdrPq => "hdr_pq"@,
        Row::ShadowMapSize => "shadow_map_size"@,
        Row::ShadowUpdate => "shadow_update"@,
        Row::ShadowDistance => "shadow_distance"@,
        Row::ShadowCascades => "shadow_cascades"@,
        Row::Anisotropy => "anisotropy"@,
        Row::UpscaleBackend => "upscale_backend"@,
        Row::FramesInFlight => "frames_in_flight"@,
        Row::OcclusionTwoPass => "occlusion_two_pass"@,
        Row::TextureQuality => "texture_quality"@,
    }
}

/// The state of a two-state row, off where the configuration has no switch for it; none
/// for a row with other options.
pub open spec fn switch_state(s: RenderSettings, row: Row) -> Option<bool> {
    match row {
        Row::Vsync => Some(s.vsync),
        Row::Toggle(t) => Some(toggle_state(s.post_config, t) == Some(true)),
        Row::TemporalUpscaling => Some(s.temporal_upscaling),
        Row::HdrDisplay => Some(s.hdr_display),
        Row::HdrPq => Some(s.hdr_pq),
        Row::OcclusionTwoPass => Some(s.occlusion_two_pass),
        _ => None,
    }
}

/// What an option of a two-state row changes: the second one is on.
pub open spec fn switched(row: Row, option: usize) -> Option<RowChange> {
    match row {
        Row::Vsync => Some(RowChange::Vsync(option == 1)),
        Row::Toggle(t) => Some(RowChange::Toggle(t, option == 1)),
        Row::TemporalUpscaling => Some(RowChange::TemporalUpscaling(option == 1)),
        Row::HdrDisplay => Some(RowChange::HdrDisplay(option == 1)),
        Row::HdrPq => Some(RowChange::HdrPq(option == 1)),
        Row::OcclusionTwoPass => Some(RowChange::OcclusionTwoPass(option == 1)),
        _ => None,
    }
}

/// The rows that the master preset sets, given the quality knobs that it governs.
pub open spec fn governed_by_preset(knobs: Seq<QualityCycle>) -> Seq<Row> {
    seq![
        Row::Toggle(QualityToggle::Taa),
        Row::Toggle(QualityToggle::Ssao),
        Row::Toggle(QualityToggle::Ssr),
        Row::Toggle(QualityToggle::RayTracedReflections),
        Row::Toggle(QualityToggle::Ssgi),
        Row::Toggle(QualityToggle::AutoExposure),
        Row::RenderScale,
    ] + knobs.map_values(|c: QualityCycle| Row::Cycle(c)) + seq![
        Row::ShadowMapSize,
        Row::ShadowUpdate,
        Row::ShadowDistance,
        Row::ShadowCascades,
        Row::Anisotropy,
    ]
}

/// Whether a setting is the master preset's row, which steps through presets.
pub fn is_preset_row(key: &str) -> (r: bool)
    ensures
        r == (key@ == "graphics_quality"@),
{
    same_text(key, "graphics_quality")
}

impl Row {
    /// The row of a setting.
    pub fn from_key(key: &str) -> (r: Option<Row>)
        ensures
            forall|row: Row| key@ == #[trigger] row_text(row) ==> r == Some(row),
            r matches Some(row) ==> key@ == row_text(row),
    {
        let r: Option<Row> = if same_text(key, "vsync") {
            Some(Row::Vsync)
        } else if same_text(key, "window_mode") {
            Some(Row::WindowMode)
        } else if same_text(key, "window_size") {
            Some(Row::WindowSize)
        } else if same_text(key, "render_scale") {
            Some(Row::RenderScale)
        } else if same_text(key, "master_volume") {
            Some(Row::MasterVolume)
        } else if same_text(key, "temporal_upscaling") {
            Some(Row::TemporalUpscaling)
        } else if same_text(key, "hdr_display") {
            Some(Row::HdrDisplay)
        } else if same_text(key, "hdr_pq") {
            Some(Row::HdrPq)
        } else if same_text(key, "shadow_map_size") {
            Some(Row::ShadowMapSize)
        } else if same_text(key, "shadow_update") {
            Some(Row::ShadowUpdate)
        } else if same_text(key, "shadow_distance") {
            Some(Row::ShadowDistance)
        } else if same_text(key, "shadow_cascades") {
            Some(Row::ShadowCascades)
        } else if same_text(key, "anisotropy") {
            Some(Row::Anisotropy)
        } else if same_text(key, "upscale_backend") {
            Some(Row::UpscaleBackend)
        } else if same_text(key, "frames_in_flight") {
            Some(Row::FramesInFlight)
        } else if same_text(key, "occlusion_two_pass") {
            Some(Row::OcclusionTwoPass)
        } else if same_text(key, "texture_quality") {
            Some(Row::TextureQuality)
        } else {
            match QualityToggle::from_key(key) {
                Some(t) => Some(Row::Toggle(t)),
                None => match QualityCycle::from_key(key) {
                    Some(c) => Some(Row::Cycle(c)),
                    None => None,
                },
            }
        };
        proof {
            assert forall|row: Row| key@ == #[trigger] row_text(row) implies r == Some(row) by {
                assert(r is Some);
                law_row_texts_distinct(row, r->0);
            }
        }
        r
    }

    /// The setting that the row changes.
    pub fn key(self) -> (r: &'static str)
        ensures
            r@ == row_text(self),
    {
        match self {
            Row::Vsync => "vsync",
            Row::WindowMode => "window_mode",
            Row::WindowSize => "window_size",
            Row::RenderScale => "render_scale",
            Row::MasterVolume => "master_volume",
            Row::Toggle(t) => match t {
                QualityToggle::Taa => "taa",
                QualityToggle::Ssao => "ssao",
                QualityToggle::Ssr => "ssr",
                QualityToggle::RayTracedReflections => "ray_traced_reflections",
                QualityToggle::Ssgi => "ssgi",
                QualityToggle::AutoExposure => "auto_exposure",
            },
            Row::Cycle(c) => match c {
                QualityCycle::AaMode => "aa_mode",
                QualityCycle::SsgiResolution => "ssgi_resolution",
                QualityCycle::SsgiRays => "ssgi_rays",
                QualityCycle::SsgiSteps => "ssgi_steps",
                QualityCycle::ReflectionBlurResolution => "reflection_blur_resolution",
            },
            Row::TemporalUpscaling => "temporal_upscaling",
            Row::HdrDisplay => "hdr_display",
            Row::HdrPq => "hdr_pq",
            Row::ShadowMapSize => "shadow_map_size",
            Row::ShadowUpdate => "shadow_update",
            Row::ShadowDistance => "shadow_distance",
            Row::ShadowCascades => "shadow_cascades",
            Row::Anisotropy => "anisotropy",
            Row::UpscaleBackend => "upscale_backend",
            Row::FramesInFlight => "frames_in_flight",
            Row::OcclusionTwoPass => "occlusion_two_pass",
            Row::TextureQuality => "texture_quality",
        }
    }

    /// What an option of the row changes; none for a row whose options hold values.
    pub fn switch_to(self, option: usize) -> (r: Option<RowChange>)
        ensures
            r == switched(self, option),
    {
        let on: bool = is_on(option);
        match self {
            Row::Vsync => Some(RowChange::Vsync(on)),
            Row::Toggle(t) => Some(RowChange::Toggle(t, on)),
            Row::TemporalUpscaling => Some(RowChange::TemporalUpscaling(on)),
            Row::HdrDisplay => Some(RowChange::HdrDisplay(on)),
            Row::HdrPq => Some(RowChange::HdrPq(on)),
            Row::OcclusionTwoPass => Some(RowChange::OcclusionTwoPass(on)),
            _ => None,
        }
    }
}

/// The option that a two-state row shows; none for a row whose options hold values.
pub fn shown_switch(s: &RenderSettings, row: Row) -> (r: Option<usize>)
    ensures
        r == match switch_state(*s, row) {
            Some(on) => Some(if on {
                1usize
            } else {
                0usize
            }),
            None => None,
        },
{
    let on: bool = match row {
        Row::Vsync => s.vsync,
        Row::Toggle(t) => match toggle_on(&s.post_config, t) {
            Some(on) => on,
            None => false,
        },
        Row::TemporalUpscaling => s.temporal_upscaling,
        Row::HdrDisplay => s.hdr_display,
        Row::HdrPq => s.hdr_pq,
        Row::OcclusionTwoPass => s.occlusion_two_pass,
        _ => {
            return None;
        },
    };
    if on {
        Some(1)
    } else {
        Some(0)
    }
}

/// The rows to show anew after the master preset is picked.
pub fn governed_rows(knobs: &Vec<QualityCycle>) -> (r: Vec<Row>)
    ensures
        r@ == governed_by_preset(knobs@),
{
    let mut rows: Vec<Row> = vec![
        Row::Toggle(QualityToggle::Taa),
        Row::Toggle(QualityToggle::Ssao),
        Row::Toggle(QualityToggle::Ssr),
        Row::Toggle(QualityToggle::RayTracedReflections),
        Row::Toggle(QualityToggle::Ssgi),
        Row::Toggle(QualityToggle::AutoExposure),
        Row::RenderScale,
    ];
    let ghost head: Seq<Row> = rows@;
    let mut i: usize = 0;
    while i < knobs.len()
        invariant
            i <= knobs@.len(),
            rows@ == head + knobs@.take(i as int).map_values(|c: QualityCycle| Row::Cycle(c)),
        decreases knobs@.len() - i,
    {
        rows.push(Row::Cycle(knobs[i]));
        i = i + 1;
        proof {
            assert(knobs@.take(i as int) =~= knobs@.take(i - 1).push(knobs@[i - 1]));
            assert(rows@ =~= head + knobs@.take(i as int).map_values(
                |c: QualityCycle| Row::Cycle(c),
            ));
        }
    }
    rows.push(Row::ShadowMapSize);
    rows.push(Row::ShadowUpdate);
    rows.push(Row::ShadowDistance);
    rows.push(Row::ShadowCascades);
    rows.push(Row::Anisotropy);
    proof {
        assert(knobs@.take(i as int) =~= knobs@);
        assert(rows@ =~= governed_by_preset(knobs@));
    }
    rows
}

/// No two rows change the same setting.
#[verifier::spinoff_prover]
pub proof fn law_row_texts_distinct(a: Row, b: Row)
    requires
        row_text(a) == row_text(b),
    ensures
        a == b,
{
    reveal_strlit("vsync");
    reveal_strlit("window_mode");
    reveal_strlit("window_size");
    reveal_strlit("render_scale");
    reveal_strlit("master_volume");
    reveal_strlit("temporal_upscaling");
    reveal_strlit("hdr_display");
    reveal_strlit("hdr_pq");
    reveal_strlit("shadow_map_size");
    reveal_strlit("shadow_update");
    reveal_strlit("shadow_distance");
    reveal_strlit("shadow_cascades");
    reveal_strlit("anisotropy");
    reveal_strlit("upscale_backend");
    reveal_strlit("frames_in_flight");
    reveal_strlit("occlusion_two_pass");
    reveal_strlit("texture_quality");
    reveal_strlit("taa");
    reveal_strlit("ssao");
    reveal_strlit("ssr");
    reveal_strlit("ray_traced_reflections");
    reveal_strlit("ssgi");
    reveal_strlit("auto_exposure");
    reveal_strlit("aa_mode");
    reveal_strlit("ssgi_resolution");
    reveal_strlit("ssgi_rays");
    reveal_strlit("ssgi_steps");
    reveal_strlit("reflection_blur_resolution");
    assert("vsync"@.len() == 5);
    assert("window_mode"@.len() == 11 && "window_mode"@[0] == 'w' && "window_mode"@[7] == 'm');
    assert("window_size"@.len() == 11 && "window_size"@[0] == 'w' && "window_size"@[7] == 's');
    assert("hdr_display"@.len() == 11 && "hdr_display"@[0] == 'h');
    assert("render_scale"@.len() == 12);
    assert("master_volume"@.len() == 13 && "master_volume"@[0] == 'm');
    assert("shadow_update"@.len() == 13 && "shadow_update"@[0] == 's');
    assert("auto_exposure"@.len() == 13 && "auto_exposure"@[0] == 'a');
    assert("temporal_upscaling"@.len() == 18 && "temporal_upscaling"@[0] == 't');
    assert("occlusion_two_pass"@.len() == 18 && "occlusion_two_pass"@[0] == 'o');
    assert("hdr_pq"@.len() == 6);
    assert("shadow_map_size"@.len() == 15 && "shadow_map_size"@[1] == 'h'
        && "shadow_map_size"@[7] == 'm');
    assert("shadow_distance"@.len() == 15 && "shadow_distance"@[1] == 'h'
        && "shadow_distance"@[7] == 'd');
    assert("shadow_cascades"@.len() == 15 && "shadow_cascades"@[1] == 'h'
        && "shadow_cascades"@[7] == 'c');
    assert("upscale_backend"@.len() == 15 && "upscale_backend"@[1] == 'p');
    assert("anisotropy"@.len() == 10 && "anisotropy"@[0] == 'a');
    assert("texture_quality"@.len() == 15 && "texture_quality"@[1] == 'e');
    assert("ssgi_resolution"@.len() == 15 && "ssgi_resolution"@[1] == 's');
    assert("frames_in_flight"@.len() == 16);
    assert("taa"@.len() == 3);
    assert("ssr"@.len() == 3);
    assert("ssao"@.len() == 4);
    assert("ssgi"@.len() == 4);
    assert("ray_traced_reflections"@.len() == 22);
    assert("aa_mode"@.len() == 7);
    assert("ssgi_rays"@.len() == 9);
    assert("ssgi_steps"@.len() == 10 && "ssgi_steps"@[0] == 's');
    assert("reflection_blur_resolution"@.len() == 26);
    match (a, b) {
        (Row::Toggle(t), Row::Toggle(u)) => law_toggle_texts_distinct(t, u),
        (Row::Cycle(c), Row::Cycle(d)) => law_cycle_texts_distinct(c, d),
        _ => {},
    }
}

/// Switching a two-state row is what it shows from then on, wherever the configuration
/// has a switch for it.
pub proof fn law_switch_reads_back(s: RenderSettings, row: Row, option: usize)
    requires
        switched(row, option) is Some,
        row matches Row::Toggle(t) ==> toggle_state(s.post_config, t) is Some,
    ensures
        switch_state(row_settings(s, switched(row, option)->0), row) == Some(option == 1),
{
}

/// A two-state row shows the setting of its own name, and an option of it changes that one:
/// the second option turns it on and any other turns it off. No other row has two states.
pub proof fn law_switch_is_of_its_own_setting(
    s: RenderSettings,
    t: QualityToggle,
    c: QualityCycle,
    option: usize,
)
    ensures
        switch_state(s, Row::Vsync) == Some(s.vsync),
        switch_state(s, Row::TemporalUpscaling) == Some(s.temporal_upscaling),
        switch_state(s, Row::HdrDisplay) == Some(s.hdr_display),
        switch_state(s, Row::HdrPq) == Some(s.hdr_pq),
        switch_state(s, Row::OcclusionTwoPass) == Some(s.occlusion_two_pass),
        switch_state(s, Row::Toggle(t)) == Some(toggle_state(s.post_config, t) == Some(true)),
        switched(Row::Vsync, option) == Some(RowChange::Vsync(option == 1)),
        switched(Row::TemporalUpscaling, option) == Some(
            RowChange::TemporalUpscaling(option == 1),
        ),
        switched(Row::HdrDisplay, option) == Some(RowChange::HdrDisplay(option == 1)),
        switched(Row::HdrPq, option) == Some(RowChange::HdrPq(option == 1)),
        switched(Row::OcclusionTwoPass, option) == Some(RowChange::OcclusionTwoPass(option == 1)),
        switched(Row::Toggle(t), option) == Some(RowChange::Toggle(t, option == 1)),
        switched(Row::WindowMode, option) is None && switch_state(s, Row::WindowMode) is None,
        switched(Row::WindowSize, option) is None && switch_state(s, Row::WindowSize) is None,
        switched(Row::RenderScale, option) is None && switch_state(s, Row::RenderScale) is None,
        switched(Row::MasterVolume, option) is None && switch_state(s, Row::MasterVolume) is None,
        switched(Row::Cycle(c), option) is None && switch_state(s, Row::Cycle(c)) is None,
        switched(Row::ShadowMapSize, option) is None && switch_state(s, Row::ShadowMapSize) is None,
        switched(Row::ShadowUpdate, option) is None && switch_state(s, Row::ShadowUpdate) is None,
        switched(Row::ShadowDistance, option) is None && switch_state(
            s,
            Row::ShadowDistance,
        ) is None,
        switched(Row::ShadowCascades, option) is None && switch_state(
            s,
            Row::ShadowCascades,
        ) is None,
        switched(Row::Anisotropy, option) is None && switch_state(s, Row::Anisotropy) is None,
        switched(Row::UpscaleBackend, option) is None && switch_state(
            s,
            Row::UpscaleBackend,
        ) is None,
        switched(Row::FramesInFlight, option) is None && switch_state(
            s,
            Row::FramesInFlight,
        ) is None,
        switched(Row::TextureQuality, option) is None && switch_state(
            s,
            Row::TextureQuality,
        ) is None,
{
}

/// A row is known by the name of its setting.
pub proof fn law_rows_are_known_by_their_settings(t: QualityToggle, c: QualityCycle)
    ensures
        row_text(Row::Vsync) == "vsync"@,
        row_text(Row::WindowMode) == "window_mode"@,
        row_text(Row::WindowSize) == "window_size"@,
        row_text(Row::RenderScale) == "render_scale"@,
        row_text(Row::MasterVolume) == "master_volume"@,
        row_text(Row::Toggle(t)) == toggle_text(t),
        row_text(Row::Cycle(c)) == cycle_text(c),
        row_text(Row::TemporalUpscaling) == "temporal_upscaling"@,
        row_text(Row::HdrDisplay) == "hdr_display"@,
        row_text(Row::HdrPq) == "hdr_pq"@,
        row_text(Row::ShadowMapSize) == "shadow_map_size"@,
        row_text(Row::ShadowUpdate) == "shadow_update"@,
        row_text(Row::ShadowDistance) == "shadow_distance"@,
        row_text(Row::ShadowCascades) == "shadow_cascades"@,
        row_text(Row::Anisotropy) == "anisotropy"@,
        row_text(Row::UpscaleBackend) == "upscale_backend"@,
        row_text(Row::FramesInFlight) == "frames_in_flight"@,
        row_text(Row::OcclusionTwoPass) == "occlusion_two_pass"@,
        row_text(Row::TextureQuality) == "texture_quality"@,
{
}

/// The rows that a preset sets are the quality toggles, the render scale, the knobs that it
/// governs, the shadow rows and the anisotropy, each toggle before the knobs and each shadow
/// row behind them.
pub proof fn law_preset_sets_its_rows(knobs: Seq<QualityCycle>, i: int)
    requires
        0 <= i < knobs.len(),
    ensures
        ({
            let rows = governed_by_preset(knobs);
            let n = knobs.len() as int;
            &&& rows.len() == n + 12
            &&& rows[0] == Row::Toggle(QualityToggle::Taa)
            &&& rows[1] == Row::Toggle(QualityToggle::Ssao)
            &&& rows[2] == Row::Toggle(QualityToggle::Ssr)
            &&& rows[3] == Row::Toggle(QualityToggle::RayTracedReflections)
            &&& rows[4] == Row::Toggle(QualityToggle::Ssgi)
            &&& rows[5] == Row::Toggle(QualityToggle::AutoExposure)
            &&& rows[6] == Row::RenderScale
            &&& rows[7 + i] == Row::Cycle(knobs[i])
            &&& rows[n + 7] == Row::ShadowMapSize
            &&& rows[n + 8] == Row::ShadowUpdate
            &&& rows[n + 9] == Row::ShadowDistance
            &&& rows[n + 10] == Row::ShadowCascades
            &&& rows[n + 11] == Row::Anisotropy
        }),
{
}

} // verus!
