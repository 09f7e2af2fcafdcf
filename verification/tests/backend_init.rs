use concinnity_gfx::backend::DeviceCapabilities;
use concinnity_gfx::backend_init::{
    BackendInit, MediaPayloads, PostSettings, RenderRequirements, SceneData, ShaderBytes,
    ShadowParams, SsaoSettings, WindowArgs, WorldFx, trim_scene_features,
};
use concinnity_gfx::float_bits::FloatBits;
use concinnity_gfx::lights::LightUniforms;
use concinnity_gfx::settings::{PostProcessParams, WindowMode};

fn bits(x: f32) -> FloatBits {
    FloatBits::new(x.to_bits())
}

fn empty_scene() -> SceneData<'static> {
    SceneData {
        vertices: &[],
        indices: &[],
        draw_objects: Vec::new(),
        instanced_clusters: Vec::new(),
        n_skinned: 0,
        n_chunk_max: 0,
    }
}

fn empty_fx() -> WorldFx {
    WorldFx {
        decals: Vec::new(),
        particles: Vec::new(),
        fog: None,
        water_surfaces: Vec::new(),
        glass_panels: Vec::new(),
        sdf_volumes: Vec::new(),
    }
}

fn full_post() -> PostSettings {
    PostSettings {
        post_process: PostProcessParams {
            exposure: bits(1.0),
            bloom_intensity: bits(0.6),
            bloom_threshold: bits(1.0),
            bloom_knee: bits(0.5),
            vignette: bits(0.0),
            lut_strength: bits(1.0),
        },
        taa_enabled: true,
        ssao: Some(SsaoSettings { radius: bits(0.5), intensity: bits(1.0) }),
        ssr: None,
        ssgi: None,
        rt_reflections: None,
        reflection_blur_scale: 2,
        auto_exposure: None,
        auto_exposure_bias_ev: bits(0.0),
        hdr_display: false,
        hdr_pq: false,
        temporal_upscaling: true,
        upscale_scale: bits(0.5),
        upscale_backend: 0,
        occlusion_two_pass: true,
    }
}

fn shadows() -> ShadowParams {
    ShadowParams { map_size: 2048, update: 0, distance: 120, cascades: 4 }
}

#[test]
fn text_only_world_derives_no_scene() {
    let req = RenderRequirements::derive(&empty_scene(), &empty_fx());
    assert!(!req.scene);
}

#[test]
fn any_scene_content_derives_scene() {
    let mut scene = empty_scene();
    scene.n_skinned = 1;
    assert!(RenderRequirements::derive(&scene, &empty_fx()).scene);

    let mut scene = empty_scene();
    scene.n_chunk_max = 8;
    assert!(RenderRequirements::derive(&scene, &empty_fx()).scene);

    // FX content alone is scene content too (a water-only world still
    // renders into the HDR scene chain).
    let scene = empty_scene();
    let mut fx = empty_fx();
    fx.water_surfaces.push(0);
    assert!(RenderRequirements::derive(&scene, &fx).scene);
}

#[test]
fn sceneless_world_trims_scene_features() {
    let mut shadows = shadows();
    let mut post = full_post();
    let mut fx = empty_fx();
    let mut planar = 3usize;
    trim_scene_features(&mut shadows, &mut post, &mut fx, &mut planar);
    assert_eq!(shadows.map_size, 0);
    assert!(!post.taa_enabled);
    assert!(post.ssao.is_none());
    assert!(!post.temporal_upscaling);
    assert!(!post.occlusion_two_pass);
    assert!(fx.fog.is_none());
    assert_eq!(planar, 0);
}

#[test]
fn scene_world_keeps_settings() {
    // A world with content must pass its resolved settings through
    // untouched: derivation flags the scene, and nothing is trimmed.
    let mut scene = empty_scene();
    scene.n_skinned = 2;
    let fx = empty_fx();
    let req = RenderRequirements::derive(&scene, &fx);
    assert!(req.scene);
}

fn init<'a>(window: &'a WindowArgs, scene: SceneData<'a>) -> BackendInit<'a> {
    BackendInit {
        window,
        validation: false,
        frames_in_flight: 2,
        vsync: true,
        clear_color: [bits(0.0); 4],
        hot_reload: false,
        scene,
        shaders: ShaderBytes { vert: &[1], frag: &[2], shadow: &[], vert_instanced: &[] },
        media: MediaPayloads {
            textures: &[],
            normal_maps: &[],
            text_atlases: Vec::new(),
            env_map_bytes: None,
            color_lut_bytes: None,
        },
        light_uniforms: LightUniforms {
            directional: Vec::new(),
            point: Vec::new(),
            num_directional: 0,
            num_point: 0,
            ambient_intensity: bits(1.0),
        },
        shadows: shadows(),
        anisotropy: 8,
        planar_planes: 3,
        post: full_post(),
        fx: empty_fx(),
        requirements: RenderRequirements::default(),
    }
}

fn window() -> WindowArgs {
    WindowArgs {
        title: "world".to_string(),
        width: 1280,
        height: 720,
        mode: WindowMode::Windowed,
    }
}

#[test]
fn resolving_trims_only_a_world_without_a_scene() {
    let w = window();
    let mut plain = init(&w, empty_scene());
    assert!(plain.requirements.scene);
    plain.resolve_requirements();
    assert!(!plain.requirements.scene);
    assert_eq!(plain.shadows.map_size, 0);
    assert_eq!(plain.shadows.distance, 120);
    assert_eq!(plain.planar_planes, 0);
    assert!(!plain.post.taa_enabled);
    assert_eq!(plain.post.reflection_blur_scale, 2);
    assert!(plain.vsync);

    let mut scene = empty_scene();
    scene.n_skinned = 1;
    let mut full = init(&w, scene);
    full.resolve_requirements();
    assert!(full.requirements.scene);
    assert_eq!(full.shadows, shadows());
    assert_eq!(full.planar_planes, 3);
    assert!(full.post.taa_enabled && full.post.ssao.is_some());
}

#[test]
fn an_unknown_device_is_assumed_capable() {
    assert_eq!(DeviceCapabilities::default(), DeviceCapabilities::all());
    assert!(DeviceCapabilities::all().ray_tracing);
}
