//! What a backend is constructed from, and the trimming of features that only decorate
//! a scene where the world has none.

use crate::float_bits::{FloatBits, Vec3, Vec4};
use crate::lights::LightUniforms;
use crate::particles::ParticleEmitterRecord;
use crate::render_types::{DrawObject, InstancedCluster, Vertex};
use crate::settings::{PostProcessParams, WindowMode};
use crate::tables::AssetId;
use vstd::prelude::*;

verus! {

/// The static geometry and the draws over it.
#[derive(Debug)]
pub struct SceneData<'a> {
    pub vertices: &'a [Vertex],
    pub indices: &'a [u32],
    pub draw_objects: Vec<DrawObject>,
    pub instanced_clusters: Vec<InstancedCluster>,
    /// The skinned draws, which are uploaded later.
    pub n_skinned: usize,
    /// The most voxel chunks that are resident at once.
    pub n_chunk_max: usize,
}

/// The compiled shaders; an empty instanced stage means no instanced pipeline.
#[derive(Debug)]
pub struct ShaderBytes<'a> {
    pub vert: &'a [u8],
    pub frag: &'a [u8],
    pub shadow: &'a [u8],
    pub vert_instanced: &'a [u8],
}

/// The decoded images, each a width, a height and RGBA pixels, and the payloads of the
/// environment map and the colour LUT.
#[derive(Debug)]
pub struct MediaPayloads<'a> {
    pub textures: &'a [(u32, u32, Vec<u8>)],
    pub normal_maps: &'a [(u32, u32, Vec<u8>)],
    pub text_atlases: Vec<(u32, u32, Vec<u8>)>,
    pub env_map_bytes: Option<&'a [u8]>,
    pub color_lut_bytes: Option<&'a [u8]>,
}

/// The shadow settings; a map size of zero is no shadows.
#[derive(Debug, Clone, Copy, PartialEq, Eq, Structural)]
pub struct ShadowParams {
    pub map_size: u32,
    pub update: u32,
    pub distance: u32,
    pub cascades: u32,
}

/// Ambient occlusion settings.
#[derive(Debug, Clone, Copy, PartialEq, Eq, Structural)]
pub struct SsaoSettings {
    pub radius: FloatBits,
    pub intensity: FloatBits,
}

/// Screen-space reflection settings.
#[derive(Debug, Clone, Copy, PartialEq, Eq, Structural)]
pub struct SsrSettings {
    pub intensity: FloatBits,
    pub max_distance: FloatBits,
}

/// Screen-space indirect light settings.
#[derive(Debug, Clone, Copy, PartialEq, Eq, Structural)]
pub struct SsgiSettings {
    pub intensity: FloatBits,
    pub max_distance: FloatBits,
    pub rays: u32,
    pub steps: u32,
}

/// Ray-traced reflection settings.
#[derive(Debug, Clone, Copy, PartialEq, Eq, Structural)]
pub struct RtReflectionSettings {
    pub intensity: FloatBits,
    pub max_distance: FloatBits,
}

/// Auto-exposure settings.
#[derive(Debug, Clone, Copy, PartialEq, Eq, Structural)]
pub struct AutoExposureSettings {
    pub min_ev: FloatBits,
    pub max_ev: FloatBits,
    pub speed: FloatBits,
}

/// Fog settings.
#[derive(Debug, Clone, Copy)]
pub struct FogSettings {
    pub color: Vec3,
    pub density: FloatBits,
    pub height_falloff: FloatBits,
    pub height_reference: FloatBits,
    pub max_distance: FloatBits,
    pub phase_g: FloatBits,
    pub ambient: FloatBits,
}

/// The resolved post-process and display settings; none is a feature that is off.
#[derive(Debug, Clone, Copy)]
pub struct PostSettings {
    pub post_process: PostProcessParams,
    pub taa_enabled: bool,
    pub ssao: Option<SsaoSettings>,
    pub ssr: Option<SsrSettings>,
    pub ssgi: Option<SsgiSettings>,
    pub rt_reflections: Option<RtReflectionSettings>,
    pub reflection_blur_scale: u32,
    pub auto_exposure: Option<AutoExposureSettings>,
    pub auto_exposure_bias_ev: FloatBits,
    pub hdr_display: bool,
    pub hdr_pq: bool,
    pub temporal_upscaling: bool,
    pub upscale_scale: FloatBits,
    pub upscale_backend: u32,
    pub occlusion_two_pass: bool,
}

/// A projected decal.
#[derive(Debug, Clone, Copy)]
pub struct DecalRecord {
    pub texture_slot: usize,
    pub tint: Vec4,
}

/// A raymarched volume with its compiled shader and its label.
#[derive(Debug)]
pub struct SdfVolume {
    pub asset_id: AssetId,
    pub shader: Vec<u8>,
    pub label: String,
}

/// The effects that a world declares.
#[derive(Debug)]
pub struct WorldFx {
    pub decals: Vec<DecalRecord>,
    pub particles: Vec<ParticleEmitterRecord>,
    pub fog: Option<FogSettings>,
    pub water_surfaces: Vec<AssetId>,
    pub glass_panels: Vec<AssetId>,
    pub sdf_volumes: Vec<SdfVolume>,
}

/// What the world's content requires of the renderer.
#[derive(Debug, Clone, Copy, PartialEq, Eq, Structural)]
pub struct RenderRequirements {
    /// There is scene content; without any the world is only user interface.
    pub scene: bool,
}

impl Default for RenderRequirements {
    fn default() -> (r: RenderRequirements)
        ensures
            r.scene,
    {
        RenderRequirements { scene: true }
    }
}

/// There is something to draw in three dimensions.
pub open spec fn has_scene(scene: SceneData<'_>, fx: WorldFx) -> bool {
    ||| scene.vertices@.len() > 0
    ||| scene.draw_objects@.len() > 0
    ||| scene.instanced_clusters@.len() > 0
    ||| scene.n_skinned > 0
    ||| scene.n_chunk_max > 0
    ||| fx.water_surfaces@.len() > 0
    ||| fx.glass_panels@.len() > 0
    ||| fx.sdf_volumes@.len() > 0
    ||| fx.particles@.len() > 0
    ||| fx.decals@.len() > 0
}

impl RenderRequirements {
    /// Derive the requirements of a world's content.
    pub fn derive(scene: &SceneData<'_>, fx: &WorldFx) -> (r: RenderRequirements)
        ensures
            r.scene == has_scene(*scene, *fx),
    {
        RenderRequirements {
            scene: scene.vertices.len() > 0 || scene.draw_objects.len() > 0
                || scene.instanced_clusters.len() > 0 || scene.n_skinned > 0 || scene.n_chunk_max
                > 0 || fx.water_surfaces.len() > 0 || fx.glass_panels.len() > 0
                || fx.sdf_volumes.len() > 0 || fx.particles.len() > 0 || fx.decals.len() > 0,
        }
    }
}

/// The shadows without a scene: none.
pub open spec fn trimmed_shadows(s: ShadowParams) -> ShadowParams {
    ShadowParams { map_size: 0, ..s }
}

/// The post-process settings without a scene: every feature that needs one is off.
pub open spec fn trimmed_post(p: PostSettings) -> PostSettings {
    PostSettings {
        taa_enabled: false,
        ssao: None,
        ssr: None,
        ssgi: None,
        rt_reflections: None,
        auto_exposure: None,
        temporal_upscaling: false,
        occlusion_two_pass: false,
        ..p
    }
}

/// Turn off every feature that only decorates a scene.
pub fn trim_scene_features(
    shadows: &mut ShadowParams,
    post: &mut PostSettings,
    fx: &mut WorldFx,
    planar_planes: &mut usize,
)
    ensures
        *final(shadows) == trimmed_shadows(*old(shadows)),
        *final(post) == trimmed_post(*old(post)),
        *final(fx) == (WorldFx { fog: None, ..*old(fx) }),
        *final(planar_planes) == 0,
{
    shadows.map_size = 0;
    post.taa_enabled = false;
    post.ssao = None;
    post.ssr = None;
    post.ssgi = None;
    post.rt_reflections = None;
    post.auto_exposure = None;
    post.temporal_upscaling = false;
    post.occlusion_two_pass = false;
    fx.fog = None;
    *planar_planes = 0;
}

/// How the window is opened.
#[derive(Debug)]
pub struct WindowArgs {
    pub title: String,
    pub width: u32,
    pub height: u32,
    pub mode: WindowMode,
}

/// Everything a backend is constructed from.
#[derive(Debug)]
pub struct BackendInit<'a> {
    pub window: &'a WindowArgs,
    /// Turn the device's validation layers on.
    pub validation: bool,
    pub frames_in_flight: usize,
    pub vsync: bool,
    pub clear_color: Vec4,
    /// Watch the shader sources.
    pub hot_reload: bool,
    pub scene: SceneData<'a>,
    pub shaders: ShaderBytes<'a>,
    pub media: MediaPayloads<'a>,
    pub light_uniforms: LightUniforms,
    pub shadows: ShadowParams,
    pub anisotropy: u32,
    pub planar_planes: usize,
    pub post: PostSettings,
    pub fx: WorldFx,
    pub requirements: RenderRequirements,
}

impl BackendInit<'_> {
    /// Derive the requirements, and turn off what they do not need.
    pub fn resolve_requirements(&mut self)
        ensures
            final(self).requirements.scene == has_scene(old(self).scene, old(self).fx),
            final(self).window == old(self).window,
            final(self).validation == old(self).validation,
            final(self).frames_in_flight == old(self).frames_in_flight,
            final(self).vsync == old(self).vsync,
            final(self).clear_color == old(self).clear_color,
            final(self).hot_reload == old(self).hot_reload,
            final(self).light_uniforms == old(self).light_uniforms,
            final(self).scene == old(self).scene,
            final(self).shaders == old(self).shaders,
            final(self).media == old(self).media,
            final(self).anisotropy == old(self).anisotropy,
            has_scene(old(self).scene, old(self).fx) ==> {
                &&& final(self).shadows == old(self).shadows
                &&& final(self).post == old(self).post
                &&& final(self).fx == old(self).fx
                &&& final(self).planar_planes == old(self).planar_planes
            },
            !has_scene(old(self).scene, old(self).fx) ==> {
                &&& final(self).shadows == trimmed_shadows(old(self).shadows)
                &&& final(self).post == trimmed_post(old(self).post)
                &&& final(self).fx == (WorldFx { fog: None, ..old(self).fx })
                &&& final(self).planar_planes == 0
            },
    {
        let req: RenderRequirements = RenderRequirements::derive(&self.scene, &self.fx);
        if !req.scene {
            trim_scene_features(
                &mut self.shadows,
                &mut self.post,
                &mut self.fx,
                &mut self.planar_planes,
            );
        }
        self.requirements = req;
    }
}

/// Trimming changes nothing that would make a scene appear: the requirements of a
/// trimmed world are the same.
pub proof fn law_trimming_keeps_requirements(scene: SceneData<'_>, fx: WorldFx)
    ensures
        has_scene(scene, WorldFx { fog: None, ..fx }) == has_scene(scene, fx),
{
}

/// A world has a scene exactly where it has geometry, a draw of any kind, or an effect that
/// is drawn in three dimensions; fog alone is none.
pub proof fn law_scene_is_anything_drawn(scene: SceneData<'_>, fx: WorldFx)
    ensures
        !has_scene(scene, fx) <==> {
            &&& scene.vertices@.len() == 0
            &&& scene.draw_objects@.len() == 0
            &&& scene.instanced_clusters@.len() == 0
            &&& scene.n_skinned == 0
            &&& scene.n_chunk_max == 0
            &&& fx.water_surfaces@.len() == 0
            &&& fx.glass_panels@.len() == 0
            &&& fx.sdf_volumes@.len() == 0
            &&& fx.particles@.len() == 0
            &&& fx.decals@.len() == 0
        },
{
}

/// Trimming turns off what needs a scene, and leaves alone what the user interface is shown
/// by.
pub proof fn law_trimming_keeps_the_display(s: ShadowParams, p: PostSettings)
    ensures
        trimmed_shadows(s).map_size == 0,
        trimmed_shadows(s).update == s.update,
        trimmed_shadows(s).distance == s.distance,
        trimmed_shadows(s).cascades == s.cascades,
        !trimmed_post(p).taa_enabled,
        trimmed_post(p).ssao is None,
        trimmed_post(p).ssr is None,
        trimmed_post(p).ssgi is None,
        trimmed_post(p).rt_reflections is None,
        trimmed_post(p).auto_exposure is None,
        !trimmed_post(p).temporal_upscaling,
        !trimmed_post(p).occlusion_two_pass,
        trimmed_post(p).post_process == p.post_process,
        trimmed_post(p).hdr_display == p.hdr_display,
        trimmed_post(p).hdr_pq == p.hdr_pq,
        trimmed_post(p).reflection_blur_scale == p.reflection_blur_scale,
        trimmed_post(p).auto_exposure_bias_ev == p.auto_exposure_bias_ev,
        trimmed_post(p).upscale_scale == p.upscale_scale,
        trimmed_post(p).upscale_backend == p.upscale_backend,
{
}

} // verus!
