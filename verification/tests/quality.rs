use concinnity_gfx::float_bits::FloatBits;
use concinnity_gfx::quality::{
    Governed, IndirectLighting, PostProcessConfig, QualityCeiling, QualityCycle, QualityToggle,
    Scale, clamp_quality_cycle, govern, is_quality_cycle, quality_cycle_value, quality_toggle_on,
    set_quality_cycle, set_quality_toggle, set_toggle, toggle_on, under_ceiling,
};

fn config() -> PostProcessConfig {
    let z = FloatBits::new(0);
    PostProcessConfig {
        ssao: false,
        ssr: true,
        ray_traced_reflections: true,
        indirect_lighting: IndirectLighting::Ssgi,
        auto_exposure: false,
        aa_mode: 3,
        ssgi_resolution: 1,
        ssgi_rays: 8,
        ssgi_steps: 4,
        reflection_blur_resolution: 2,
        upscale_quality: 0,
        upscale_backend: 0,
        hdr_display: false,
        hdr_pq: false,
        temporal_upscaling: false,
        occlusion_two_pass: false,
        exposure_ev: z,
        ssao_radius: z,
        ssao_intensity: z,
        ssr_intensity: z,
        ssr_max_distance: z,
        ssgi_intensity: z,
        ssgi_max_distance: z,
        auto_exposure_min_ev: z,
        auto_exposure_max_ev: z,
        auto_exposure_speed: z,
    }
}

fn ceiling() -> QualityCeiling {
    QualityCeiling {
        taa: true,
        ssao: true,
        ssr: false,
        ray_traced_reflections: true,
        ssgi: false,
        auto_exposure: true,
        ssgi_rays: 4,
        ssgi_steps: 16,
        shadow_distance: 60,
        shadow_cascades: 3,
        anisotropy: 8,
        aa_mode: 1,
        ssgi_resolution: 2,
        reflection_blur_resolution: 1,
        min_upscale: 3,
        shadow_map_size: 1024,
        shadow_update: 1,
    }
}

/// Fewer samples and smaller maps are coarser, and so are the later options of the rest.
fn coarser(scale: Scale, value: u32, finest: u32) -> u32 {
    match scale {
        Scale::AaMode | Scale::ShadowMapSize => value.min(finest),
        _ => value.max(finest),
    }
}

const TOGGLES: [(&str, QualityToggle); 5] = [
    ("ssao", QualityToggle::Ssao),
    ("ssr", QualityToggle::Ssr),
    ("ray_traced_reflections", QualityToggle::RayTracedReflections),
    ("ssgi", QualityToggle::Ssgi),
    ("auto_exposure", QualityToggle::AutoExposure),
];

#[test]
fn a_toggle_reads_back_and_leaves_the_others() {
    for (key, t) in TOGGLES {
        assert_eq!(QualityToggle::from_key(key), Some(t));
        for on in [false, true] {
            let mut cfg = config();
            set_quality_toggle(&mut cfg, key, on);
            assert_eq!(quality_toggle_on(&cfg, key), Some(on));
            assert_eq!(toggle_on(&cfg, t), Some(on));
            let mut same = config();
            set_toggle(&mut same, t, on);
            assert_eq!(cfg, same);
            for (other, _) in TOGGLES {
                if other != key {
                    assert_eq!(quality_toggle_on(&cfg, other), quality_toggle_on(&config(), other));
                }
            }
        }
    }
}

#[test]
fn other_keys_are_no_toggles() {
    for key in ["taa", "exposure", "SSAO", ""] {
        let mut cfg = config();
        assert_eq!(quality_toggle_on(&cfg, key), None);
        set_quality_toggle(&mut cfg, key, true);
        assert_eq!(cfg, config());
    }
    assert_eq!(QualityToggle::from_key("taa"), Some(QualityToggle::Taa));
    assert_eq!(QualityToggle::from_key("ssa"), None);
}

#[test]
fn knobs_by_key() {
    let keys = vec!["ssgi_rays".to_string(), "ssgi_steps".to_string()];
    assert!(is_quality_cycle(&keys, "ssgi_rays"));
    assert!(!is_quality_cycle(&keys, "aa_mode"));
    assert_eq!(QualityCycle::from_key("aa_mode"), Some(QualityCycle::AaMode));
    assert_eq!(
        QualityCycle::from_key("reflection_blur_resolution"),
        Some(QualityCycle::ReflectionBlurResolution)
    );
    assert_eq!(QualityCycle::from_key("ssgi"), None);
}

#[test]
fn a_knob_reads_back_and_leaves_the_others() {
    let all = [
        QualityCycle::AaMode,
        QualityCycle::SsgiResolution,
        QualityCycle::SsgiRays,
        QualityCycle::SsgiSteps,
        QualityCycle::ReflectionBlurResolution,
    ];
    for c in all {
        let mut cfg = config();
        set_quality_cycle(&mut cfg, c, 77);
        assert_eq!(quality_cycle_value(&cfg, c), 77);
        for d in all {
            if d != c {
                assert_eq!(quality_cycle_value(&cfg, d), quality_cycle_value(&config(), d));
            }
        }
    }
}

#[test]
fn counts_are_clamped_down_and_never_raised() {
    let mut cfg = config();
    clamp_quality_cycle(&mut cfg, QualityCycle::SsgiRays, &ceiling(), false, &coarser);
    clamp_quality_cycle(&mut cfg, QualityCycle::SsgiSteps, &ceiling(), false, &coarser);
    assert_eq!((cfg.ssgi_rays, cfg.ssgi_steps), (4, 4));
    let mut kept = config();
    clamp_quality_cycle(&mut kept, QualityCycle::SsgiRays, &ceiling(), true, &coarser);
    assert_eq!(kept, config());
}

#[test]
fn a_ceiling_turns_features_off_and_none_on() {
    let cfg = under_ceiling(&config(), &ceiling(), &vec![QualityCycle::AaMode], &coarser);
    assert!(!cfg.ssao);
    assert!(!cfg.ssr);
    assert!(cfg.ray_traced_reflections);
    assert_eq!(cfg.indirect_lighting, IndirectLighting::Ibl);
    assert!(!cfg.auto_exposure);
    assert_eq!(cfg.aa_mode, 1);
    assert_eq!(cfg.ssgi_rays, 8);
    assert_eq!(cfg.reflection_blur_resolution, 2);
}

#[test]
fn scaled_knobs_become_the_coarser_setting() {
    let mut cfg = config();
    clamp_quality_cycle(&mut cfg, QualityCycle::AaMode, &ceiling(), false, &coarser);
    assert_eq!(cfg, PostProcessConfig { aa_mode: 1, ..config() });
    clamp_quality_cycle(&mut cfg, QualityCycle::SsgiResolution, &ceiling(), false, &coarser);
    clamp_quality_cycle(
        &mut cfg,
        QualityCycle::ReflectionBlurResolution,
        &ceiling(),
        false,
        &coarser,
    );
    // The blur is coarser than the ceiling asks for and stays.
    assert_eq!((cfg.aa_mode, cfg.ssgi_resolution, cfg.reflection_blur_resolution), (1, 2, 2));
    let once = cfg;
    clamp_quality_cycle(&mut cfg, QualityCycle::SsgiResolution, &ceiling(), false, &coarser);
    assert_eq!(cfg, once);
    let mut kept = config();
    clamp_quality_cycle(&mut kept, QualityCycle::AaMode, &ceiling(), true, &coarser);
    assert_eq!(kept, config());
}

#[test]
fn governed_values_are_derived_from_the_authored_ones() {
    let authored = Governed {
        post_config: config(),
        render_scale: 0,
        shadow_map_size: 512,
        shadow_update: 0,
        shadow_distance: 80,
        shadow_cascades: 2,
        anisotropy: 16,
    };
    let knobs = vec![QualityCycle::SsgiRays];
    let under = govern(&authored, &ceiling(), &knobs, &coarser);
    assert_eq!(under.post_config, under_ceiling(&config(), &ceiling(), &knobs, &coarser));
    assert_eq!((under.render_scale, under.shadow_map_size, under.shadow_update), (3, 512, 1));
    assert_eq!((under.shadow_distance, under.shadow_cascades, under.anisotropy), (60, 2, 8));
    assert_eq!(govern(&authored, &ceiling(), &knobs, &coarser), under);
}
