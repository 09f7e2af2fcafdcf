//! The renderer driver: its state, the order of a frame's work and the ways a frame
//! ends.
//!
//! The backend is carried as a value of any type. Times are nanoseconds of a monotonic
//! clock.

use crate::backend::DeviceCapabilities;
use crate::backend_init::FogSettings;
use crate::float_bits::{FloatBits, Mat4, Vec3, Vec4, one, zero};
use crate::frame_pacer::{Pace, cap_in_force, frame_start, next_deadline, pace};
use crate::hot_reload_sources::HotReloadSources;
use crate::input::{FrameInput, RenderInput, frame_input};
use crate::keymap::{KeyMap, default_keymap};
use crate::menu::{RebindViz, SliderViz};
use crate::quality::{
    Governed, PostProcessConfig, QualityCeiling, QualityCycle, Scale, is_governed,
};
use crate::settings::{
    AppliedSliders, Declared, PostProcessParams, QualityPreset, RenderSettings, UserSettings,
    WindowMode, asked_at_start, starting_settings,
};
use crate::streaming::ChunkStreamState;
use crate::tables::AssetId;
use std::collections::HashMap;
use vstd::prelude::*;

verus! {

/// The frames between two reports of the streaming pools.
pub const REPORT_EVERY: u64 = 120;

/// The texture slots by texture, for what is spawned at run time.
#[derive(Debug)]
pub struct WorldReloadState {
    pub texture_name_to_slot: HashMap<u32, usize>,
}

/// The resident, pending and unloaded counts of each streaming pool; none where a pool
/// does not stream. Chunks are resident or pending.
#[derive(Debug, Clone, Copy)]
pub struct StreamingStats {
    pub texture: Option<(usize, usize, usize)>,
    pub normal_map: Option<(usize, usize, usize)>,
    pub mesh: Option<(usize, usize, usize)>,
    pub chunk: Option<(usize, usize)>,
}

impl Default for StreamingStats {
    fn default() -> (r: StreamingStats)
        ensures
            r.texture is None,
            r.normal_map is None,
            r.mesh is None,
            r.chunk is None,
    {
        StreamingStats { texture: None, normal_map: None, mesh: None, chunk: None }
    }
}

/// The parts of the driver that a reload edits in one tick.
pub struct HotReloadApplyParts<'a, B> {
    pub backend: &'a mut B,
    pub world_reload: &'a Option<WorldReloadState>,
    pub last_fog_settings: &'a mut Option<FogSettings>,
}

/// The values that the engine's assets default to.
#[derive(Debug, Clone, Copy)]
pub struct AssetDefaults {
    pub window_mode: WindowMode,
    pub window_width: u32,
    pub window_height: u32,
    pub shadow_update: u32,
    pub render_scale: u32,
    pub upscale_backend: u32,
    pub post_process: PostProcessParams,
    pub post_config: PostProcessConfig,
}

/// The driver's state.
#[derive(Debug)]
pub struct GraphicsSystem<B> {
    pub settings: RenderSettings,
    pub clear_color: Vec4,
    /// The most frames per second; zero is no limit.
    pub fps_cap: u32,
    /// When the next frame is to start at the earliest, in nanoseconds.
    pub next_frame_deadline: Option<u64>,
    /// A menu was open in the last frame.
    pub menu_active_prev: bool,
    pub max_frames: Option<u64>,
    /// Starting up failed; no frame is drawn.
    pub failed: bool,
    pub start_time: Option<u64>,
    pub frame_count: u64,
    /// Where the pointer was at the last poll.
    pub cursor_pos: (FloatBits, FloatBits),
    /// A menu can open over a controlled camera.
    pub menu_mode: bool,
    /// The elapsed seconds at the last frame.
    pub prev_elapsed: FloatBits,
    pub caps: DeviceCapabilities,
    pub backend: Option<B>,
    pub sliders: Vec<SliderViz>,
    pub cycle_value_labels: Vec<(String, AssetId)>,
    pub clip_rects: HashMap<u32, Vec4>,
    pub rebind_rows: Vec<RebindViz>,
    pub mesh_stream_draw_indices: Vec<usize>,
    pub chunk_stream: Option<ChunkStreamState>,
    pub pending_hot_reload_sources: Option<HotReloadSources>,
    pub world_reload: Option<WorldReloadState>,
    pub last_fog_settings: Option<FogSettings>,
}

/// The settings before anything is declared or stored.
pub open spec fn fresh_settings(d: AssetDefaults) -> RenderSettings {
    RenderSettings {
        window_mode: d.window_mode,
        window_width: d.window_width,
        window_height: d.window_height,
        vsync: false,
        render_scale: d.render_scale,
        frames_in_flight: 2,
        shadow_map_size: 2048,
        shadow_update: d.shadow_update,
        shadow_distance: 80,
        shadow_cascades: 4,
        anisotropy: 8,
        upscale_backend: d.upscale_backend,
        temporal_upscaling: false,
        hdr_display: false,
        hdr_pq: false,
        occlusion_two_pass: false,
        texture_cap: 96,
        texture_budget: 4,
        quality_preset: QualityPreset::Auto,
        post_process: d.post_process,
        post_config: d.post_config,
        ambient_intensity: one(),
        keymap: default_keymap(),
        authored_post_config: d.post_config,
        authored_shadow_map_size: 2048,
        authored_shadow_update: d.shadow_update,
        authored_shadow_distance: 80,
        authored_shadow_cascades: 4,
        authored_anisotropy: 8,
    }
}

/// The driver with what the world declares and what the user stored, where `governed` is
/// what the starting preset's ceiling makes of what the world asks for.
pub open spec fn configured<B>(
    g: GraphicsSystem<B>,
    world: Declared,
    applied: AppliedSliders,
    user: UserSettings,
    governed: Governed,
) -> GraphicsSystem<B> {
    let g = GraphicsSystem {
        settings: starting_settings(g.settings, world, applied, user, governed),
        ..g
    };
    match world.graphics {
        Some(c) => GraphicsSystem {
            clear_color: c.clear_color,
            max_frames: c.max_frames,
            fps_cap: c.fps_cap,
            ..g
        },
        None => g,
    }
}

/// What a step of the world comes to.
#[derive(Debug, Clone, Copy, PartialEq, Eq, Structural)]
pub enum StepResult {
    Continue,
    /// The driver has nothing more to do.
    Done,
    /// The world is to stop.
    Stop,
}

/// The work of a frame, in order.
#[derive(Debug, Clone, Copy, PartialEq, Eq, Structural)]
pub enum Phase {
    /// Lay out and gather the overlay, and set the cursor.
    Overlay,
    /// Count lifetimes down and despawn what has expired.
    Lifetimes,
    Despawns,
    Reparents,
    Spawns,
    Spawners,
    /// Resolve world matrices and push them.
    Transforms,
    Poses,
    SceneJumps,
    Settings,
    Reel,
    Textures,
    NormalMaps,
    Meshes,
    Chunks,
    Draw,
    /// Poll and publish the input.
    Input,
}

/// What came of a phase.
#[derive(Debug, Clone, Copy, PartialEq, Eq, Structural)]
pub enum Event {
    Through,
    NoBackend,
    WindowClosed,
    DrawFailed,
}

/// What is to be done next.
#[derive(Debug, Clone, Copy, PartialEq, Eq, Structural)]
pub enum Step {
    Run(Phase),
    /// The frame is over; `wait_idle` asks to let the device finish first.
    End { result: StepResult, wait_idle: bool },
}

/// The place of a phase in a frame.
pub open spec fn phase_rank(p: Phase) -> int {
    match p {
        Phase::Overlay => 0,
        Phase::Lifetimes => 1,
        Phase::Despawns => 2,
        Phase::Reparents => 3,
        Phase::Spawns => 4,
        Phase::Spawners => 5,
        Phase::Transforms => 6,
        Phase::Poses => 7,
        Phase::SceneJumps => 8,
        Phase::Settings => 9,
        Phase::Reel => 10,
        Phase::Textures => 11,
        Phase::NormalMaps => 12,
        Phase::Meshes => 13,
        Phase::Chunks => 14,
        Phase::Draw => 15,
        Phase::Input => 16,
    }
}

/// The step after a phase. `last` tells whether the frame that ends is the last one
/// asked for.
pub open spec fn step_after(phase: Phase, event: Event, last: bool) -> Step {
    match phase {
        Phase::Overlay => match event {
            Event::NoBackend => Step::End { result: StepResult::Done, wait_idle: false },
            Event::WindowClosed => Step::End { result: StepResult::Stop, wait_idle: true },
            _ => Step::Run(Phase::Lifetimes),
        },
        Phase::Lifetimes => Step::Run(Phase::Despawns),
        Phase::Despawns => Step::Run(Phase::Reparents),
        Phase::Reparents => Step::Run(Phase::Spawns),
        Phase::Spawns => Step::Run(Phase::Spawners),
        Phase::Spawners => Step::Run(Phase::Transforms),
        Phase::Transforms => Step::Run(Phase::Poses),
        Phase::Poses => Step::Run(Phase::SceneJumps),
        Phase::SceneJumps => Step::Run(Phase::Settings),
        Phase::Settings => Step::Run(Phase::Reel),
        Phase::Reel => Step::Run(Phase::Textures),
        Phase::Textures => Step::Run(Phase::NormalMaps),
        Phase::NormalMaps => Step::Run(Phase::Meshes),
        Phase::Meshes => Step::Run(Phase::Chunks),
        Phase::Chunks => Step::Run(Phase::Draw),
        Phase::Draw => match event {
            Event::DrawFailed => Step::End { result: StepResult::Stop, wait_idle: true },
            _ => Step::Run(Phase::Input),
        },
        Phase::Input => if last {
            Step::End { result: StepResult::Done, wait_idle: true }
        } else {
            Step::End { result: StepResult::Continue, wait_idle: false }
        },
    }
}

/// A frame number is the last one asked for, or past it.
pub open spec fn is_last(max_frames: Option<u64>, frame_count: int) -> bool {
    max_frames matches Some(max) && frame_count >= max
}

/// A camera's projection and pose.
#[derive(Debug, Clone, Copy)]
pub struct CameraView {
    pub fov_y_radians: FloatBits,
    pub near: FloatBits,
    pub far: FloatBits,
    pub view: Mat4,
    pub position: Vec3,
}

/// The view of a world without a camera: an eighth of a turn, from a twentieth to two
/// hundred units, at the origin.
pub open spec fn is_default_view(v: CameraView) -> bool {
    &&& v.fov_y_radians.bits == 0x3f49_0fdb
    &&& v.near.bits == 0x3d4c_cccd
    &&& v.far.bits == 0x4348_0000
    &&& crate::csm::is_identity(v.view)
    &&& v.position[0] == zero() && v.position[1] == zero() && v.position[2] == zero()
}

/// The view to draw: the first camera's, or the default one.
pub fn camera_view(first: Option<CameraView>) -> (r: CameraView)
    ensures
        match first {
            Some(v) => r == v,
            None => is_default_view(r),
        },
{
    match first {
        Some(v) => v,
        None => {
            let o: FloatBits = FloatBits::new(0x3f80_0000);
            let z: FloatBits = FloatBits::new(0);
            CameraView {
                fov_y_radians: FloatBits::new(0x3f49_0fdb),
                near: FloatBits::new(0x3d4c_cccd),
                far: FloatBits::new(0x4348_0000),
                view: [[o, z, z, z], [z, o, z, z], [z, z, o, z], [z, z, z, o]],
                position: [z, z, z],
            }
        },
    }
}

/// The pool slot of a streamed normal map: slot zero is the flat one.
pub fn normal_map_slot(item: usize) -> (r: usize)
    requires
        item < usize::MAX,
    ensures
        r == item + 1,
{
    item + 1
}

impl<B> GraphicsSystem<B> {
    /// A driver without a backend.
    pub fn new(d: &AssetDefaults) -> (r: GraphicsSystem<B>)
        ensures
            r.settings == fresh_settings(*d),
            r.clear_color[0].bits == 0x3c23_d70a,
            r.clear_color[1].bits == 0x3c23_d70a,
            r.clear_color[2].bits == 0x3ca3_d70a,
            r.clear_color[3] == one(),
            r.fps_cap == 0,
            r.next_frame_deadline is None,
            !r.menu_active_prev,
            r.max_frames is None,
            !r.failed,
            r.start_time is None,
            r.frame_count == 0,
            r.cursor_pos == (zero(), zero()),
            !r.menu_mode,
            r.prev_elapsed == zero(),
            r.caps == (DeviceCapabilities { ray_tracing: true }),
            r.backend is None,
            r.sliders@.len() == 0,
            r.cycle_value_labels@.len() == 0,
            r.clip_rects@ == Map::<u32, Vec4>::empty(),
            r.rebind_rows@.len() == 0,
            r.mesh_stream_draw_indices@.len() == 0,
            r.chunk_stream is None,
            r.pending_hot_reload_sources is None,
            r.world_reload is None,
            r.last_fog_settings is None,
    {
        let z: FloatBits = FloatBits::new(0);
        let o: FloatBits = FloatBits::new(0x3f80_0000);
        let dark: FloatBits = FloatBits::new(0x3c23_d70a);
        let settings: RenderSettings = RenderSettings {
            window_mode: d.window_mode,
            window_width: d.window_width,
            window_height: d.window_height,
            vsync: false,
            render_scale: d.render_scale,
            frames_in_flight: 2,
            shadow_map_size: 2048,
            shadow_update: d.shadow_update,
            shadow_distance: 80,
            shadow_cascades: 4,
            anisotropy: 8,
            upscale_backend: d.upscale_backend,
            temporal_upscaling: false,
            hdr_display: false,
            hdr_pq: false,
            occlusion_two_pass: false,
            texture_cap: 96,
            texture_budget: 4,
            quality_preset: QualityPreset::Auto,
            post_process: d.post_process,
            post_config: d.post_config,
            ambient_intensity: o,
            keymap: KeyMap::default(),
            authored_post_config: d.post_config,
            authored_shadow_map_size: 2048,
            authored_shadow_update: d.shadow_update,
            authored_shadow_distance: 80,
            authored_shadow_cascades: 4,
            authored_anisotropy: 8,
        };
        GraphicsSystem {
            settings,
            clear_color: [dark, dark, FloatBits::new(0x3ca3_d70a), o],
            fps_cap: 0,
            next_frame_deadline: None,
            menu_active_prev: false,
            max_frames: None,
            failed: false,
            start_time: None,
            frame_count: 0,
            cursor_pos: (z, z),
            menu_mode: false,
            prev_elapsed: z,
            caps: DeviceCapabilities::all(),
            backend: None,
            sliders: Vec::new(),
            cycle_value_labels: Vec::new(),
            clip_rects: HashMap::new(),
            rebind_rows: Vec::new(),
            mesh_stream_draw_indices: Vec::new(),
            chunk_stream: None,
            pending_hot_reload_sources: None,
            world_reload: None,
            last_fog_settings: None,
        }
    }

    /// Take up what the world declares and what the user stored, before the backend is
    /// built.
    pub fn configure<F: Fn(Scale, u32, u32) -> u32>(
        &mut self,
        world: &Declared,
        applied: &AppliedSliders,
        user: &UserSettings,
        ceiling: &QualityCeiling,
        knobs: &Vec<QualityCycle>,
        coarser: &F,
    )
        requires
            forall|s: Scale, v: u32, l: u32| call_requires(*coarser, (s, v, l)),
        ensures
            exists|governed: Governed| #[trigger]
                is_governed(
                    *coarser,
                    asked_at_start(old(self).settings, *world),
                    *ceiling,
                    knobs@,
                    governed,
                ) && *final(self) == configured(*old(self), *world, *applied, *user, governed),
    {
        self.settings.resolve(world, applied, user, ceiling, knobs, coarser);
        match world.graphics {
            Some(g) => {
                self.clear_color = g.clear_color;
                self.max_frames = g.max_frames;
                self.fps_cap = g.fps_cap;
            },
            None => {},
        }
    }

    /// Give up: no frame is drawn from now on.
    pub fn fail(&mut self)
        ensures
            *final(self) == (GraphicsSystem { failed: true, ..*old(self) }),
    {
        self.failed = true;
    }

    /// Take the captured sources; there are none afterwards.
    pub fn take_hot_reload_sources(&mut self) -> (r: Option<HotReloadSources>)
        ensures
            r == old(self).pending_hot_reload_sources,
            *final(self) == (GraphicsSystem { pending_hot_reload_sources: None, ..*old(self) }),
    {
        let mut taken: Option<HotReloadSources> = None;
        std::mem::swap(&mut taken, &mut self.pending_hot_reload_sources);
        taken
    }

    /// The parts of the driver that a reload edits; none without a backend.
    pub fn hot_reload_apply_parts(&mut self) -> (r: Option<HotReloadApplyParts<'_, B>>)
        ensures
            match r {
                None => old(self).backend is None && *final(self) == *old(self),
                Some(p) => {
                    &&& old(self).backend == Some(*p.backend)
                    &&& *p.world_reload == old(self).world_reload
                    &&& *p.last_fog_settings == old(self).last_fog_settings
                    &&& *final(self) == (GraphicsSystem {
                        backend: Some(*final(p.backend)),
                        last_fog_settings: *final(p.last_fog_settings),
                        ..*old(self)
                    })
                },
            },
    {
        match &mut self.backend {
            Some(backend) => Some(
                HotReloadApplyParts {
                    backend,
                    world_reload: &self.world_reload,
                    last_fog_settings: &mut self.last_fog_settings,
                },
            ),
            None => None,
        }
    }

    /// The counts of the streaming pools, each as its streamer gives it. Chunk counts
    /// are given only while chunks stream.
    pub fn streaming_stats(
        &self,
        texture: Option<(usize, usize, usize)>,
        normal_map: Option<(usize, usize, usize)>,
        mesh: Option<(usize, usize, usize)>,
        chunk: (usize, usize),
    ) -> (r: StreamingStats)
        ensures
            r == (StreamingStats {
                texture,
                normal_map,
                mesh,
                chunk: if self.chunk_stream is Some {
                    Some(chunk)
                } else {
                    None
                },
            }),
    {
        let chunk: Option<(usize, usize)> = match &self.chunk_stream {
            Some(_) => Some(chunk),
            None => None,
        };
        StreamingStats { texture, normal_map, mesh, chunk }
    }

    /// The size of the drawable: none at all without a backend. `logical_size` asks
    /// the backend.
    pub fn viewport_size<L: Fn(&B) -> (FloatBits, FloatBits)>(&self, logical_size: &L) -> (r: (
        FloatBits,
        FloatBits,
    ))
        requires
            forall|b: B| #[trigger] call_requires(*logical_size, (&b,)),
        ensures
            match self.backend {
                Some(b) => call_ensures(*logical_size, (&b,), r),
                None => r == (zero(), zero()),
            },
    {
        match &self.backend {
            Some(b) => logical_size(b),
            None => (FloatBits::new(0), FloatBits::new(0)),
        }
    }

    /// How long the frame about to begin waits, in nanoseconds: under the cap and, where
    /// a menu was open in the last frame, under `menu_cap` too. After a failed start
    /// nothing is paced.
    pub fn pace_frame(&mut self, now: u64, menu_cap: u32) -> (wait: u64)
        ensures
            old(self).failed ==> wait == 0 && *final(self) == *old(self),
            !old(self).failed ==> {
                let cap = cap_in_force(old(self).fps_cap, old(self).menu_active_prev, menu_cap);
                let start = frame_start(old(self).next_frame_deadline, now, cap);
                &&& wait == start - now
                &&& *final(self) == (GraphicsSystem {
                    next_frame_deadline: next_deadline(start, cap),
                    ..*old(self)
                })
            },
    {
        if self.failed {
            return 0;
        }
        let p: Pace = pace(
            self.next_frame_deadline,
            now,
            self.fps_cap,
            self.menu_active_prev,
            menu_cap,
        );
        self.next_frame_deadline = p.deadline;
        p.wait
    }

    /// Begin a frame: after a failed start there is nothing to do, and otherwise the
    /// frame's length is what has elapsed since the last one, never negative. `minus`
    /// subtracts.
    pub fn begin_step<M: Fn(FloatBits, FloatBits) -> FloatBits>(
        &mut self,
        elapsed: FloatBits,
        minus: &M,
    ) -> (r: (Step, FloatBits))
        requires
            forall|a: FloatBits, b: FloatBits| call_requires(*minus, (a, b)),
        ensures
            old(self).failed ==> {
                &&& *final(self) == *old(self)
                &&& r.0 == (Step::End { result: StepResult::Done, wait_idle: false })
                &&& r.1 == zero()
            },
            !old(self).failed ==> {
                &&& *final(self) == (GraphicsSystem { prev_elapsed: elapsed, ..*old(self) })
                &&& r.0 == Step::Run(Phase::Overlay)
                &&& exists|d: FloatBits|
                    {
                        &&& #[trigger] call_ensures(
                            *minus,
                            (elapsed, old(self).prev_elapsed),
                            d,
                        )
                        &&& r.1 == d.greater(zero())
                    }
            },
    {
        if self.failed {
            return (Step::End { result: StepResult::Done, wait_idle: false }, FloatBits::new(0));
        }
        let d: FloatBits = minus(elapsed, self.prev_elapsed);
        assert(call_ensures(*minus, (elapsed, old(self).prev_elapsed), d));
        self.prev_elapsed = elapsed;
        (Step::Run(Phase::Overlay), d.max(FloatBits::new(0)))
    }

    /// Go on after a phase. The last phase counts the frame.
    pub fn after_phase(&mut self, phase: Phase, event: Event) -> (r: Step)
        requires
            phase is Input ==> old(self).frame_count < u64::MAX,
        ensures
            r == step_after(
                phase,
                event,
                is_last(old(self).max_frames, old(self).frame_count + 1),
            ),
            *final(self) == (GraphicsSystem {
                frame_count: if phase is Input {
                    (old(self).frame_count + 1) as u64
                } else {
                    old(self).frame_count
                },
                ..*old(self)
            }),
    {
        match phase {
            Phase::Overlay => match event {
                Event::NoBackend => Step::End { result: StepResult::Done, wait_idle: false },
                Event::WindowClosed => Step::End { result: StepResult::Stop, wait_idle: true },
                _ => Step::Run(Phase::Lifetimes),
            },
            Phase::Lifetimes => Step::Run(Phase::Despawns),
            Phase::Despawns => Step::Run(Phase::Reparents),
            Phase::Reparents => Step::Run(Phase::Spawns),
            Phase::Spawns => Step::Run(Phase::Spawners),
            Phase::Spawners => Step::Run(Phase::Transforms),
            Phase::Transforms => Step::Run(Phase::Poses),
            Phase::Poses => Step::Run(Phase::SceneJumps),
            Phase::SceneJumps => Step::Run(Phase::Settings),
            Phase::Settings => Step::Run(Phase::Reel),
            Phase::Reel => Step::Run(Phase::Textures),
            Phase::Textures => Step::Run(Phase::NormalMaps),
            Phase::NormalMaps => Step::Run(Phase::Meshes),
            Phase::Meshes => Step::Run(Phase::Chunks),
            Phase::Chunks => Step::Run(Phase::Draw),
            Phase::Draw => match event {
                Event::DrawFailed => Step::End { result: StepResult::Stop, wait_idle: true },
                _ => Step::Run(Phase::Input),
            },
            Phase::Input => {
                self.frame_count = self.frame_count + 1;
                let last: bool = match self.max_frames {
                    Some(max) => self.frame_count >= max,
                    None => false,
                };
                if last {
                    Step::End { result: StepResult::Done, wait_idle: true }
                } else {
                    Step::End { result: StepResult::Continue, wait_idle: false }
                }
            },
        }
    }

    /// Whether the camera is to hold the cursor; nothing is said where no menu can
    /// open over it.
    pub fn camera_capture(&self, menu_active: bool) -> (r: Option<bool>)
        ensures
            r == if self.menu_mode {
                Some(!menu_active)
            } else {
                None
            },
    {
        if self.menu_mode {
            Some(!menu_active)
        } else {
            None
        }
    }

    /// Whether this frame reports on the streaming pools.
    pub fn reports(&self) -> (r: bool)
        ensures
            r == (self.frame_count % REPORT_EVERY == 0),
            // The first frame, and every hundred-and-twentieth after it.
            r <==> self.frame_count % 120 == 0,
    {
        self.frame_count % REPORT_EVERY == 0
    }

    /// Take a poll up: the pointer is kept for the next frame's cursor, and whether a
    /// menu is open for its pace; the frame's input is given.
    pub fn take_input(
        &mut self,
        raw: &RenderInput,
        menu_active: bool,
        viewport: (FloatBits, FloatBits),
    ) -> (r: FrameInput)
        ensures
            *final(self) == (GraphicsSystem {
                cursor_pos: (raw.mouse_x, raw.mouse_y),
                menu_active_prev: menu_active,
                ..*old(self)
            }),
            r.play == if menu_active {
                crate::input::idle_controls()
            } else {
                crate::input::controls_of(*raw)
            },
            r.scroll_delta == raw.scroll_delta,
            r.mouse_x == raw.mouse_x,
            r.mouse_y == raw.mouse_y,
            r.left_click == raw.left_click,
            r.left_button_down == raw.left_button_down,
            r.viewport == viewport,
            r.hud_toggle == raw.hud_toggle,
            r.escape == raw.escape,
            r.captured_key == raw.captured_key,
    {
        self.cursor_pos = (raw.mouse_x, raw.mouse_y);
        self.menu_active_prev = menu_active;
        frame_input(raw, menu_active, viewport)
    }
}

/// The step after `k` phases that all go well.
pub open spec fn frame_run(last: bool, k: nat) -> Step
    decreases k,
{
    if k == 0 {
        Step::Run(Phase::Overlay)
    } else {
        match frame_run(last, (k - 1) as nat) {
            Step::Run(p) => step_after(p, Event::Through, last),
            end => end,
        }
    }
}

/// A frame that goes well runs every phase once, in order, and then ends.
pub proof fn law_frame_runs_every_phase(last: bool, phase: Phase)
    ensures
        frame_run(last, phase_rank(phase) as nat) == Step::Run(phase),
        frame_run(last, 17) is End,
        !last ==> frame_run(last, 17) == (Step::End {
            result: StepResult::Continue,
            wait_idle: false,
        }),
{
    reveal_with_fuel(frame_run, 18);
}

/// Work only moves forward: what despawns comes before what spawns, and both before
/// world matrices are pushed and the frame is drawn.
pub proof fn law_phases_move_forward(phase: Phase, event: Event, last: bool)
    ensures
        step_after(phase, event, last) matches Step::Run(next) ==> phase_rank(next) == phase_rank(
            phase,
        ) + 1,
        phase_rank(Phase::Lifetimes) < phase_rank(Phase::Spawns),
        phase_rank(Phase::Despawns) < phase_rank(Phase::Reparents),
        phase_rank(Phase::Reparents) < phase_rank(Phase::Spawns),
        phase_rank(Phase::Spawners) < phase_rank(Phase::Transforms),
        phase_rank(Phase::Transforms) < phase_rank(Phase::Draw),
{
}

/// The world goes on after a frame only where the frame was drawn, its input taken up
/// and more frames are asked for.
pub proof fn law_continue_needs_a_whole_frame(phase: Phase, event: Event, last: bool)
    requires
        step_after(phase, event, last) == (Step::End {
            result: StepResult::Continue,
            wait_idle: false,
        }),
    ensures
        phase is Input,
        !last,
{
}

/// How a frame ends: early, without waiting, where there is no backend to lay out for; early,
/// to stop, where the window is closed or the draw fails; and otherwise after the input, for
/// good where the frame was the last one asked for. Whatever stops or was the last lets the
/// device finish first.
pub proof fn law_how_a_frame_ends(phase: Phase, event: Event, last: bool)
    ensures
        step_after(phase, event, last) == (Step::End {
            result: StepResult::Stop,
            wait_idle: true,
        }) <==> (phase is Overlay && event is WindowClosed) || (phase is Draw
            && event is DrawFailed),
        step_after(phase, event, last) == (Step::End {
            result: StepResult::Done,
            wait_idle: false,
        }) <==> phase is Overlay && event is NoBackend,
        step_after(phase, event, last) == (Step::End {
            result: StepResult::Done,
            wait_idle: true,
        }) <==> phase is Input && last,
        step_after(phase, event, last) == (Step::End {
            result: StepResult::Continue,
            wait_idle: false,
        }) <==> phase is Input && !last,
        step_after(phase, event, last) is End ==> phase is Overlay || phase is Draw
            || phase is Input,
{
}

/// A frame is the last one exactly where a number of frames was asked for and it reaches it.
pub proof fn law_last_frame_reaches_the_number_asked_for(n: u64, frame_count: int)
    ensures
        !is_last(None, frame_count),
        is_last(Some(n), frame_count) <==> frame_count >= n,
        is_last(Some(n), frame_count) ==> is_last(Some(n), frame_count + 1),
{
}

/// What the world declares of the window is taken up, each value in its own place, and
/// without a declaration it stays; nothing else of the driver but its settings changes.
pub proof fn law_declared_window_is_taken_up<B>(
    g: GraphicsSystem<B>,
    world: Declared,
    applied: AppliedSliders,
    user: UserSettings,
    governed: Governed,
)
    ensures
        ({
            let after = configured(g, world, applied, user, governed);
            &&& after.settings == starting_settings(g.settings, world, applied, user, governed)
            &&& world.graphics matches Some(c) ==> {
                &&& after.clear_color == c.clear_color
                &&& after.max_frames == c.max_frames
                &&& after.fps_cap == c.fps_cap
            }
            &&& world.graphics is None ==> {
                &&& after.clear_color == g.clear_color
                &&& after.max_frames == g.max_frames
                &&& after.fps_cap == g.fps_cap
            }
            &&& after == (GraphicsSystem {
                settings: after.settings,
                clear_color: after.clear_color,
                max_frames: after.max_frames,
                fps_cap: after.fps_cap,
                ..g
            })
        }),
{
}

/// Before anything is declared, what a quality preset starts from is what is drawn.
pub proof fn law_fresh_settings_are_authored(d: AssetDefaults)
    ensures
        ({
            let s = fresh_settings(d);
            &&& s.authored_post_config == s.post_config && s.post_config == d.post_config
            &&& s.authored_shadow_map_size == s.shadow_map_size && s.shadow_map_size == 2048
            &&& s.authored_shadow_update == s.shadow_update && s.shadow_update == d.shadow_update
            &&& s.authored_shadow_distance == s.shadow_distance && s.shadow_distance == 80
            &&& s.authored_shadow_cascades == s.shadow_cascades && s.shadow_cascades == 4
            &&& s.authored_anisotropy == s.anisotropy && s.anisotropy == 8
            &&& s.window_mode == d.window_mode
            &&& s.window_width == d.window_width
            &&& s.window_height == d.window_height
            &&& s.render_scale == d.render_scale
            &&& s.upscale_backend == d.upscale_backend
            &&& s.post_process == d.post_process
            &&& s.quality_preset == QualityPreset::Auto
            &&& s.ambient_intensity.bits == 0x3f80_0000
            &&& s.frames_in_flight == 2
            &&& s.texture_cap == 96
            &&& s.texture_budget == 4
            &&& !s.vsync && !s.temporal_upscaling && !s.hdr_display && !s.hdr_pq
                && !s.occlusion_two_pass
        }),
{
}

/// Without a camera the view is the one from the origin: an eighth of a turn high, from a
/// twentieth of a unit to two hundred.
pub proof fn law_default_view_by_its_patterns(v: CameraView, c: int, r: int)
    requires
        is_default_view(v),
        0 <= c < 4,
        0 <= r < 4,
    ensures
        v.fov_y_radians.bits == 0x3f49_0fdb,
        v.near.bits == 0x3d4c_cccd,
        v.far.bits == 0x4348_0000,
        v.position[0].bits == 0 && v.position[1].bits == 0 && v.position[2].bits == 0,
        v.view[c][r].bits == if c == r {
            0x3f80_0000
        } else {
            0u32
        },
{
    crate::csm::law_identity_by_its_patterns(v.view, c, r);
}

} // verus!
