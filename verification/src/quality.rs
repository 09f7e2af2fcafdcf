//! The post-process configuration and its quality toggles and knobs.

use crate::float_bits::FloatBits;
use crate::text::same_text;
use vstd::prelude::*;

verus! {

/// Where indirect light comes from.
#[derive(Debug, Clone, Copy, PartialEq, Eq, Structural)]
pub enum IndirectLighting {
    Ibl,
    Ssgi,
}

/// The post-process configuration. Enumerated knobs are held as the number their
/// option table gives them.
#[derive(Debug, Clone, Copy, PartialEq, Eq, Structural)]
pub struct PostProcessConfig {
    pub ssao: bool,
    pub ssr: bool,
    pub ray_traced_reflections: bool,
    pub indirect_lighting: IndirectLighting,
    pub auto_exposure: bool,
    pub aa_mode: u32,
    pub ssgi_resolution: u32,
    pub ssgi_rays: u32,
    pub ssgi_steps: u32,
    pub reflection_blur_resolution: u32,
    pub upscale_quality: u32,
    pub upscale_backend: u32,
    pub hdr_display: bool,
    pub hdr_pq: bool,
    pub temporal_upscaling: bool,
    pub occlusion_two_pass: bool,
    pub exposure_ev: FloatBits,
    pub ssao_radius: FloatBits,
    pub ssao_intensity: FloatBits,
    pub ssr_intensity: FloatBits,
    pub ssr_max_distance: FloatBits,
    pub ssgi_intensity: FloatBits,
    pub ssgi_max_distance: FloatBits,
    pub auto_exposure_min_ev: FloatBits,
    pub auto_exposure_max_ev: FloatBits,
    pub auto_exposure_speed: FloatBits,
}

/// A quality feature that is on or off.
#[derive(Debug, Clone, Copy, PartialEq, Eq, Structural)]
pub enum QualityToggle {
    /// Anti-aliasing history. It is chosen by the anti-aliasing knob, so the
    /// configuration has no switch for it.
    Taa,
    Ssao,
    Ssr,
    RayTracedReflections,
    Ssgi,
    AutoExposure,
}

/// The key of a toggle.
pub open spec fn toggle_text(t: QualityToggle) -> Seq<char> {
    match t {
        QualityToggle::Taa => "taa"@,
        QualityToggle::Ssao => "ssao"@,
        QualityToggle::Ssr => "ssr"@,
        QualityToggle::RayTracedReflections => "ray_traced_reflections"@,
        QualityToggle::Ssgi => "ssgi"@,
        QualityToggle::AutoExposure => "auto_exposure"@,
    }
}

/// No two toggles have the same key.
#[verifier::spinoff_prover]
pub proof fn law_toggle_texts_distinct(a: QualityToggle, b: QualityToggle)
    requires
        toggle_text(a) == toggle_text(b),
    ensures
        a == b,
{
    reveal_strlit("taa");
    reveal_strlit("ssao");
    reveal_strlit("ssr");
    reveal_strlit("ray_traced_reflections");
    reveal_strlit("ssgi");
    reveal_strlit("auto_exposure");
    assert("taa"@.len() == 3 && "taa"@[0] == 't');
    assert("ssr"@.len() == 3 && "ssr"@[0] == 's');
    assert("ssao"@.len() == 4 && "ssao"@[2] == 'a');
    assert("ssgi"@.len() == 4 && "ssgi"@[2] == 'g');
    assert("auto_exposure"@.len() == 13);
    assert("ray_traced_reflections"@.len() == 22);
}

impl QualityToggle {
    /// The toggle of a key.
    pub fn from_key(key: &str) -> (r: Option<QualityToggle>)
        ensures
            forall|t: QualityToggle| key@ == #[trigger] toggle_text(t) ==> r == Some(t),
            r matches Some(t) ==> key@ == toggle_text(t),
    {
        let r: Option<QualityToggle> = if same_text(key, "taa") {
            Some(QualityToggle::Taa)
        } else if same_text(key, "ssao") {
            Some(QualityToggle::Ssao)
        } else if same_text(key, "ssr") {
            Some(QualityToggle::Ssr)
        } else if same_text(key, "ray_traced_reflections") {
            Some(QualityToggle::RayTracedReflections)
        } else if same_text(key, "ssgi") {
            Some(QualityToggle::Ssgi)
        } else if same_text(key, "auto_exposure") {
            Some(QualityToggle::AutoExposure)
        } else {
            None
        };
        proof {
            assert forall|t: QualityToggle| key@ == #[trigger] toggle_text(t) implies r == Some(t) by {
                assert(r is Some);
                law_toggle_texts_distinct(t, r->0);
            }
        }
        r
    }
}

/// The state of a toggle; none where the configuration has no switch for it.
pub open spec fn toggle_state(cfg: PostProcessConfig, t: QualityToggle) -> Option<bool> {
    match t {
        QualityToggle::Taa => None,
        QualityToggle::Ssao => Some(cfg.ssao),
        QualityToggle::Ssr => Some(cfg.ssr),
        QualityToggle::RayTracedReflections => Some(cfg.ray_traced_reflections),
        QualityToggle::Ssgi => Some(cfg.indirect_lighting == IndirectLighting::Ssgi),
        QualityToggle::AutoExposure => Some(cfg.auto_exposure),
    }
}

/// The configuration with a toggle set.
pub open spec fn with_toggle(
    cfg: PostProcessConfig,
    t: QualityToggle,
    on: bool,
) -> PostProcessConfig {
    match t {
        QualityToggle::Taa => cfg,
        QualityToggle::Ssao => PostProcessConfig { ssao: on, ..cfg },
        QualityToggle::Ssr => PostProcessConfig { ssr: on, ..cfg },
        QualityToggle::RayTracedReflections => PostProcessConfig {
            ray_traced_reflections: on,
            ..cfg
        },
        QualityToggle::Ssgi => PostProcessConfig {
            indirect_lighting: if on {
                IndirectLighting::Ssgi
            } else {
                IndirectLighting::Ibl
            },
            ..cfg
        },
        QualityToggle::AutoExposure => PostProcessConfig { auto_exposure: on, ..cfg },
    }
}

/// The state of a toggle.
pub fn toggle_on(cfg: &PostProcessConfig, t: QualityToggle) -> (r: Option<bool>)
    ensures
        r == toggle_state(*cfg, t),
{
    match t {
        QualityToggle::Taa => None,
        QualityToggle::Ssao => Some(cfg.ssao),
        QualityToggle::Ssr => Some(cfg.ssr),
        QualityToggle::RayTracedReflections => Some(cfg.ray_traced_reflections),
        QualityToggle::Ssgi => Some(cfg.indirect_lighting == IndirectLighting::Ssgi),
        QualityToggle::AutoExposure => Some(cfg.auto_exposure),
    }
}

/// Set a toggle.
pub fn set_toggle(cfg: &mut PostProcessConfig, t: QualityToggle, on: bool)
    ensures
        *final(cfg) == with_toggle(*old(cfg), t, on),
{
    match t {
        QualityToggle::Taa => {},
        QualityToggle::Ssao => {
            cfg.ssao = on;
        },
        QualityToggle::Ssr => {
            cfg.ssr = on;
        },
        QualityToggle::RayTracedReflections => {
            cfg.ray_traced_reflections = on;
        },
        QualityToggle::Ssgi => {
            cfg.indirect_lighting =
            if on {
                IndirectLighting::Ssgi
            } else {
                IndirectLighting::Ibl
            };
        },
        QualityToggle::AutoExposure => {
            cfg.auto_exposure = on;
        },
    }
}

/// The state of the toggle with a key; none for any other key.
pub fn quality_toggle_on(cfg: &PostProcessConfig, key: &str) -> (r: Option<bool>)
    ensures
        forall|t: QualityToggle| key@ == #[trigger] toggle_text(t) ==> r == toggle_state(*cfg, t),
        (forall|t: QualityToggle| key@ != #[trigger] toggle_text(t)) ==> r is None,
{
    match QualityToggle::from_key(key) {
        Some(t) => {
            toggle_on(cfg, t)
        },
        None => None,
    }
}

/// Set the toggle with a key; any other key changes nothing.
pub fn set_quality_toggle(cfg: &mut PostProcessConfig, key: &str, on: bool)
    ensures
        forall|t: QualityToggle|
            key@ == #[trigger] toggle_text(t) ==> *final(cfg) == with_toggle(*old(cfg), t, on),
        (forall|t: QualityToggle| key@ != #[trigger] toggle_text(t)) ==> *final(cfg) == *old(cfg),
{
    match QualityToggle::from_key(key) {
        Some(t) => {
            set_toggle(cfg, t, on);
        },
        None => {},
    }
}

/// Setting a toggle is what reading it gives back, and no other toggle changes.
pub proof fn law_toggle_reads_back(
    cfg: PostProcessConfig,
    t: QualityToggle,
    u: QualityToggle,
    on: bool,
)
    ensures
        toggle_state(cfg, t) is Some ==> toggle_state(with_toggle(cfg, t, on), t) == Some(on),
        t != u ==> toggle_state(with_toggle(cfg, t, on), u) == toggle_state(cfg, u),
{
}

/// A quality knob with several options.
#[derive(Debug, Clone, Copy, PartialEq, Eq, Structural)]
pub enum QualityCycle {
    AaMode,
    SsgiResolution,
    SsgiRays,
    SsgiSteps,
    ReflectionBlurResolution,
}

/// The key of a knob.
pub open spec fn cycle_text(c: QualityCycle) -> Seq<char> {
    match c {
        QualityCycle::AaMode => "aa_mode"@,
        QualityCycle::SsgiResolution => "ssgi_resolution"@,
        QualityCycle::SsgiRays => "ssgi_rays"@,
        QualityCycle::SsgiSteps => "ssgi_steps"@,
        QualityCycle::ReflectionBlurResolution => "reflection_blur_resolution"@,
    }
}

/// No two knobs have the same key.
#[verifier::spinoff_prover]
pub proof fn law_cycle_texts_distinct(a: QualityCycle, b: QualityCycle)
    requires
        cycle_text(a) == cycle_text(b),
    ensures
        a == b,
{
    reveal_strlit("aa_mode");
    reveal_strlit("ssgi_resolution");
    reveal_strlit("ssgi_rays");
    reveal_strlit("ssgi_steps");
    reveal_strlit("reflection_blur_resolution");
    assert("aa_mode"@.len() == 7);
    assert("ssgi_resolution"@.len() == 15);
    assert("ssgi_rays"@.len() == 9);
    assert("ssgi_steps"@.len() == 10);
    assert("reflection_blur_resolution"@.len() == 26);
}

impl QualityCycle {
    /// The knob of a key.
    pub fn from_key(key: &str) -> (r: Option<QualityCycle>)
        ensures
            forall|c: QualityCycle| key@ == #[trigger] cycle_text(c) ==> r == Some(c),
            r matches Some(c) ==> key@ == cycle_text(c),
    {
        let r: Option<QualityCycle> = if same_text(key, "aa_mode") {
            Some(QualityCycle::AaMode)
        } else if same_text(key, "ssgi_resolution") {
            Some(QualityCycle::SsgiResolution)
        } else if same_text(key, "ssgi_rays") {
            Some(QualityCycle::SsgiRays)
        } else if same_text(key, "ssgi_steps") {
            Some(QualityCycle::SsgiSteps)
        } else if same_text(key, "reflection_blur_resolution") {
            Some(QualityCycle::ReflectionBlurResolution)
        } else {
            None
        };
        proof {
            assert forall|c: QualityCycle| key@ == #[trigger] cycle_text(c) implies r == Some(c) by {
                assert(r is Some);
                law_cycle_texts_distinct(c, r->0);
            }
        }
        r
    }
}

/// Whether a key is one of the knobs that a list names.
pub fn is_quality_cycle(keys: &Vec<String>, key: &str) -> (r: bool)
    ensures
        r == exists|i: int| 0 <= i < keys@.len() && (#[trigger] keys@[i])@ == key@,
{
    let mut i: usize = 0;
    while i < keys.len()
        invariant
            i <= keys@.len(),
            forall|j: int| 0 <= j < i ==> (#[trigger] keys@[j])@ != key@,
        decreases keys@.len() - i,
    {
        if same_text(keys[i].as_str(), key) {
            assert(keys@[i as int]@ == key@);
            return true;
        }
        i = i + 1;
    }
    false
}

/// The value of a knob.
pub open spec fn knob(cfg: PostProcessConfig, c: QualityCycle) -> u32 {
    match c {
        QualityCycle::AaMode => cfg.aa_mode,
        QualityCycle::SsgiResolution => cfg.ssgi_resolution,
        QualityCycle::SsgiRays => cfg.ssgi_rays,
        QualityCycle::SsgiSteps => cfg.ssgi_steps,
        QualityCycle::ReflectionBlurResolution => cfg.reflection_blur_resolution,
    }
}

/// The configuration with a knob set.
pub open spec fn with_knob(cfg: PostProcessConfig, c: QualityCycle, value: u32) -> PostProcessConfig {
    match c {
        QualityCycle::AaMode => PostProcessConfig { aa_mode: value, ..cfg },
        QualityCycle::SsgiResolution => PostProcessConfig { ssgi_resolution: value, ..cfg },
        QualityCycle::SsgiRays => PostProcessConfig { ssgi_rays: value, ..cfg },
        QualityCycle::SsgiSteps => PostProcessConfig { ssgi_steps: value, ..cfg },
        QualityCycle::ReflectionBlurResolution => PostProcessConfig {
            reflection_blur_resolution: value,
            ..cfg
        },
    }
}

/// The value of a knob, which its option table places.
pub fn quality_cycle_value(cfg: &PostProcessConfig, c: QualityCycle) -> (r: u32)
    ensures
        r == knob(*cfg, c),
{
    match c {
        QualityCycle::AaMode => cfg.aa_mode,
        QualityCycle::SsgiResolution => cfg.ssgi_resolution,
        QualityCycle::SsgiRays => cfg.ssgi_rays,
        QualityCycle::SsgiSteps => cfg.ssgi_steps,
        QualityCycle::ReflectionBlurResolution => cfg.reflection_blur_resolution,
    }
}

/// Set a knob to a value of its option table.
pub fn set_quality_cycle(cfg: &mut PostProcessConfig, c: QualityCycle, value: u32)
    ensures
        *final(cfg) == with_knob(*old(cfg), c, value),
{
    match c {
        QualityCycle::AaMode => {
            cfg.aa_mode = value;
        },
        QualityCycle::SsgiResolution => {
            cfg.ssgi_resolution = value;
        },
        QualityCycle::SsgiRays => {
            cfg.ssgi_rays = value;
        },
        QualityCycle::SsgiSteps => {
            cfg.ssgi_steps = value;
        },
        QualityCycle::ReflectionBlurResolution => {
            cfg.reflection_blur_resolution = value;
        },
    }
}

/// Setting a knob is what reading it gives back, and no other knob or toggle changes.
pub proof fn law_knob_reads_back(
    cfg: PostProcessConfig,
    c: QualityCycle,
    d: QualityCycle,
    t: QualityToggle,
    value: u32,
)
    ensures
        knob(with_knob(cfg, c, value), c) == value,
        c != d ==> knob(with_knob(cfg, c, value), d) == knob(cfg, d),
        toggle_state(with_knob(cfg, c, value), t) == toggle_state(cfg, t),
{
}

/// A value that is lowered along a scale of its own.
#[derive(Debug, Clone, Copy, PartialEq, Eq, Structural)]
pub enum Scale {
    AaMode,
    SsgiResolution,
    ReflectionBlurResolution,
    RenderScale,
    ShadowMapSize,
    ShadowUpdate,
}

/// What a quality ceiling allows: the features that stay on, the most rays and steps,
/// the farthest shadows, the most cascades and anisotropy, and the finest setting on
/// each scale.
#[derive(Debug, Clone, Copy, PartialEq, Eq, Structural)]
pub struct QualityCeiling {
    pub taa: bool,
    pub ssao: bool,
    pub ssr: bool,
    pub ray_traced_reflections: bool,
    pub ssgi: bool,
    pub auto_exposure: bool,
    pub ssgi_rays: u32,
    pub ssgi_steps: u32,
    pub shadow_distance: u32,
    pub shadow_cascades: u32,
    pub anisotropy: u32,
    pub aa_mode: u32,
    pub ssgi_resolution: u32,
    pub reflection_blur_resolution: u32,
    pub min_upscale: u32,
    pub shadow_map_size: u32,
    pub shadow_update: u32,
}

/// The smaller of two counts.
pub open spec fn fewer(a: u32, b: u32) -> u32 {
    if a <= b {
        a
    } else {
        b
    }
}

fn least_of(a: u32, b: u32) -> (r: u32)
    ensures
        r == fewer(a, b),
{
    if a <= b {
        a
    } else {
        b
    }
}

/// Whether a value is a knob's under a ceiling: a count is the lesser of what it was and
/// what is allowed, and any other knob is what `coarser` makes of the two.
pub open spec fn is_clamped<F: Fn(Scale, u32, u32) -> u32>(
    coarser: F,
    cfg: PostProcessConfig,
    c: QualityCycle,
    ceiling: QualityCeiling,
    value: u32,
) -> bool {
    match c {
        QualityCycle::AaMode => call_ensures(
            coarser,
            (Scale::AaMode, cfg.aa_mode, ceiling.aa_mode),
            value,
        ),
        QualityCycle::SsgiResolution => call_ensures(
            coarser,
            (Scale::SsgiResolution, cfg.ssgi_resolution, ceiling.ssgi_resolution),
            value,
        ),
        QualityCycle::SsgiRays => value == fewer(cfg.ssgi_rays, ceiling.ssgi_rays),
        QualityCycle::SsgiSteps => value == fewer(cfg.ssgi_steps, ceiling.ssgi_steps),
        QualityCycle::ReflectionBlurResolution => call_ensures(
            coarser,
            (
                Scale::ReflectionBlurResolution,
                cfg.reflection_blur_resolution,
                ceiling.reflection_blur_resolution,
            ),
            value,
        ),
    }
}

/// Whether `now` is `cfg` with one knob clamped.
pub open spec fn is_clamp<F: Fn(Scale, u32, u32) -> u32>(
    coarser: F,
    cfg: PostProcessConfig,
    c: QualityCycle,
    ceiling: QualityCeiling,
    now: PostProcessConfig,
) -> bool {
    &&& is_clamped(coarser, cfg, c, ceiling, knob(now, c))
    &&& now == with_knob(cfg, c, knob(now, c))
}

/// Clamp a knob down under a ceiling; a knob the user set is left alone. `coarser` picks
/// the coarser of a value and the finest allowed one on a scale.
pub fn clamp_quality_cycle<F: Fn(Scale, u32, u32) -> u32>(
    cfg: &mut PostProcessConfig,
    c: QualityCycle,
    ceiling: &QualityCeiling,
    overridden: bool,
    coarser: &F,
)
    requires
        forall|s: Scale, v: u32, l: u32| call_requires(*coarser, (s, v, l)),
    ensures
        overridden ==> *final(cfg) == *old(cfg),
        !overridden ==> is_clamp(*coarser, *old(cfg), c, *ceiling, *final(cfg)),
{
    if overridden {
        return;
    }
    let value: u32 = match c {
        QualityCycle::AaMode => coarser(Scale::AaMode, cfg.aa_mode, ceiling.aa_mode),
        QualityCycle::SsgiResolution => coarser(
            Scale::SsgiResolution,
            cfg.ssgi_resolution,
            ceiling.ssgi_resolution,
        ),
        QualityCycle::SsgiRays => least_of(cfg.ssgi_rays, ceiling.ssgi_rays),
        QualityCycle::SsgiSteps => least_of(cfg.ssgi_steps, ceiling.ssgi_steps),
        QualityCycle::ReflectionBlurResolution => coarser(
            Scale::ReflectionBlurResolution,
            cfg.reflection_blur_resolution,
            ceiling.reflection_blur_resolution,
        ),
    };
    set_quality_cycle(cfg, c, value);
}

/// Whether a choice of the coarser setting never gives a finer one, where `fineness`
/// tells how fine a setting of a scale is.
pub open spec fn only_coarsens<F: Fn(Scale, u32, u32) -> u32>(
    coarser: F,
    fineness: spec_fn(Scale, u32) -> int,
) -> bool {
    forall|s: Scale, v: u32, l: u32, r: u32| #[trigger]
        call_ensures(coarser, (s, v, l), r) ==> fineness(s, r) <= fineness(s, v)
}

/// Whether a setting that was brought under a limit is left alone under the same one.
pub open spec fn settles<F: Fn(Scale, u32, u32) -> u32>(coarser: F) -> bool {
    forall|s: Scale, v: u32, l: u32, r: u32, again: u32| #[trigger]
        call_ensures(coarser, (s, v, l), r) && #[trigger] call_ensures(coarser, (s, r, l), again)
            ==> again == r
}

/// Whether a choice of the coarser setting gives the same one whenever it is asked.
pub open spec fn always_same<F: Fn(Scale, u32, u32) -> u32>(coarser: F) -> bool {
    forall|s: Scale, v: u32, l: u32, x: u32, y: u32| #[trigger]
        call_ensures(coarser, (s, v, l), x) && #[trigger] call_ensures(coarser, (s, v, l), y)
            ==> x == y
}

/// How fine a knob's value is; of a count, the count itself.
pub open spec fn knob_fineness(
    fineness: spec_fn(Scale, u32) -> int,
    c: QualityCycle,
    value: u32,
) -> int {
    match c {
        QualityCycle::AaMode => fineness(Scale::AaMode, value),
        QualityCycle::SsgiResolution => fineness(Scale::SsgiResolution, value),
        QualityCycle::SsgiRays => value as int,
        QualityCycle::SsgiSteps => value as int,
        QualityCycle::ReflectionBlurResolution => fineness(Scale::ReflectionBlurResolution, value),
    }
}

/// A clamp never makes a knob finer, changes no other knob and no toggle, and a second
/// one under the same ceiling changes nothing.
pub proof fn law_clamp_only_lowers<F: Fn(Scale, u32, u32) -> u32>(
    coarser: F,
    fineness: spec_fn(Scale, u32) -> int,
    ceiling: QualityCeiling,
    c: QualityCycle,
    d: QualityCycle,
    t: QualityToggle,
    cfg: PostProcessConfig,
    once: PostProcessConfig,
    twice: PostProcessConfig,
)
    requires
        only_coarsens(coarser, fineness),
        settles(coarser),
        is_clamp(coarser, cfg, c, ceiling, once),
        is_clamp(coarser, once, c, ceiling, twice),
    ensures
        knob_fineness(fineness, c, knob(once, c)) <= knob_fineness(fineness, c, knob(cfg, c)),
        c != d ==> knob(once, d) == knob(cfg, d),
        toggle_state(once, t) == toggle_state(cfg, t),
        twice == once,
{
}

/// The features a ceiling allows.
pub open spec fn allows(ceiling: QualityCeiling, t: QualityToggle) -> bool {
    match t {
        QualityToggle::Taa => ceiling.taa,
        QualityToggle::Ssao => ceiling.ssao,
        QualityToggle::Ssr => ceiling.ssr,
        QualityToggle::RayTracedReflections => ceiling.ray_traced_reflections,
        QualityToggle::Ssgi => ceiling.ssgi,
        QualityToggle::AutoExposure => ceiling.auto_exposure,
    }
}

/// The configuration with the features off that a ceiling does not allow.
pub open spec fn features_under(cfg: PostProcessConfig, ceiling: QualityCeiling) -> PostProcessConfig {
    PostProcessConfig {
        ssao: cfg.ssao && ceiling.ssao,
        ssr: cfg.ssr && ceiling.ssr,
        ray_traced_reflections: cfg.ray_traced_reflections && ceiling.ray_traced_reflections,
        indirect_lighting: if ceiling.ssgi {
            cfg.indirect_lighting
        } else {
            IndirectLighting::Ibl
        },
        auto_exposure: cfg.auto_exposure && ceiling.auto_exposure,
        ..cfg
    }
}

/// Whether `steps` leads from a configuration to the one with the listed knobs clamped,
/// one after the other.
pub open spec fn clamps_in_turn<F: Fn(Scale, u32, u32) -> u32>(
    coarser: F,
    cfg: PostProcessConfig,
    ceiling: QualityCeiling,
    knobs: Seq<QualityCycle>,
    steps: Seq<PostProcessConfig>,
) -> bool {
    &&& steps.len() == knobs.len() + 1
    &&& steps[0] == cfg
    &&& forall|i: int|
        0 <= i < knobs.len() ==> is_clamp(
            coarser,
            steps[i],
            #[trigger] knobs[i],
            ceiling,
            steps[i + 1],
        )
}

/// Whether a configuration is an authored one under a ceiling: features that are not
/// allowed are off, and the listed knobs are clamped.
pub open spec fn is_under<F: Fn(Scale, u32, u32) -> u32>(
    coarser: F,
    authored: PostProcessConfig,
    ceiling: QualityCeiling,
    knobs: Seq<QualityCycle>,
    r: PostProcessConfig,
) -> bool {
    exists|steps: Seq<PostProcessConfig>| #[trigger]
        clamps_in_turn(coarser, features_under(authored, ceiling), ceiling, knobs, steps)
            && r == steps.last()
}

/// Bring an authored configuration under a ceiling. `knobs` lists the knobs that the
/// ceiling governs.
#[verifier::spinoff_prover]
#[verifier::rlimit(60)]
pub fn under_ceiling<F: Fn(Scale, u32, u32) -> u32>(
    authored: &PostProcessConfig,
    ceiling: &QualityCeiling,
    knobs: &Vec<QualityCycle>,
    coarser: &F,
) -> (r: PostProcessConfig)
    requires
        forall|s: Scale, v: u32, l: u32| call_requires(*coarser, (s, v, l)),
    ensures
        is_under(*coarser, *authored, *ceiling, knobs@, r),
{
    let mut cfg: PostProcessConfig = *authored;
    if !ceiling.ssao {
        set_toggle(&mut cfg, QualityToggle::Ssao, false);
    }
    if !ceiling.ssr {
        set_toggle(&mut cfg, QualityToggle::Ssr, false);
    }
    if !ceiling.ray_traced_reflections {
        set_toggle(&mut cfg, QualityToggle::RayTracedReflections, false);
    }
    if !ceiling.ssgi {
        set_toggle(&mut cfg, QualityToggle::Ssgi, false);
    }
    if !ceiling.auto_exposure {
        set_toggle(&mut cfg, QualityToggle::AutoExposure, false);
    }
    let ghost start = features_under(*authored, *ceiling);
    assert(cfg == start);
    let ghost mut steps = seq![start];
    let mut k: usize = 0;
    while k < knobs.len()
        invariant
            k <= knobs@.len(),
            forall|s: Scale, v: u32, l: u32| call_requires(*coarser, (s, v, l)),
            clamps_in_turn(*coarser, start, *ceiling, knobs@.subrange(0, k as int), steps),
            cfg == steps.last(),
        decreases knobs@.len() - k,
    {
        let ghost was = steps;
        clamp_quality_cycle(&mut cfg, knobs[k], ceiling, false, coarser);
        proof {
            let before = knobs@.subrange(0, k as int);
            let next = knobs@.subrange(0, k + 1);
            steps = was.push(cfg);
            assert forall|i: int| 0 <= i < next.len() implies is_clamp(
                *coarser,
                steps[i],
                #[trigger] next[i],
                *ceiling,
                steps[i + 1],
            ) by {
                if i < k {
                    assert(before[i] == next[i]);
                    assert(is_clamp(*coarser, was[i], before[i], *ceiling, was[i + 1]));
                }
            }
        }
        k = k + 1;
    }
    assert(knobs@.subrange(0, k as int) =~= knobs@);
    cfg
}

proof fn lemma_turn_keeps_toggles<F: Fn(Scale, u32, u32) -> u32>(
    coarser: F,
    fineness: spec_fn(Scale, u32) -> int,
    cfg: PostProcessConfig,
    ceiling: QualityCeiling,
    knobs: Seq<QualityCycle>,
    steps: Seq<PostProcessConfig>,
    k: int,
    t: QualityToggle,
    c: QualityCycle,
)
    requires
        only_coarsens(coarser, fineness),
        clamps_in_turn(coarser, cfg, ceiling, knobs, steps),
        0 <= k <= knobs.len(),
    ensures
        toggle_state(steps[k], t) == toggle_state(cfg, t),
        knob_fineness(fineness, c, knob(steps[k], c)) <= knob_fineness(fineness, c, knob(cfg, c)),
    decreases k,
{
    if k > 0 {
        lemma_turn_keeps_toggles(coarser, fineness, cfg, ceiling, knobs, steps, k - 1, t, c);
        assert(is_clamp(coarser, steps[k - 1], knobs[k - 1], ceiling, steps[k - 1 + 1]));
    }
}

/// A ceiling never turns a feature on, none that it forbids stays on, every one that it
/// allows stays as it was authored, and no knob becomes finer.
pub proof fn law_ceiling_only_lowers<F: Fn(Scale, u32, u32) -> u32>(
    coarser: F,
    fineness: spec_fn(Scale, u32) -> int,
    authored: PostProcessConfig,
    ceiling: QualityCeiling,
    knobs: Seq<QualityCycle>,
    cfg: PostProcessConfig,
    t: QualityToggle,
    c: QualityCycle,
)
    requires
        only_coarsens(coarser, fineness),
        is_under(coarser, authored, ceiling, knobs, cfg),
    ensures
        toggle_state(cfg, t) == Some(true) ==> toggle_state(authored, t) == Some(true) && allows(
            ceiling,
            t,
        ),
        toggle_state(authored, t) == Some(true) && allows(ceiling, t) ==> toggle_state(cfg, t)
            == Some(true),
        knob_fineness(fineness, c, knob(cfg, c)) <= knob_fineness(fineness, c, knob(authored, c)),
{
    let start = features_under(authored, ceiling);
    let steps = choose|steps: Seq<PostProcessConfig>| #[trigger]
        clamps_in_turn(coarser, start, ceiling, knobs, steps) && cfg == steps.last();
    lemma_turn_keeps_toggles(
        coarser,
        fineness,
        start,
        ceiling,
        knobs,
        steps,
        knobs.len() as int,
        t,
        c,
    );
    assert(knob(start, c) == knob(authored, c));
}

proof fn lemma_turns_agree<F: Fn(Scale, u32, u32) -> u32>(
    coarser: F,
    cfg: PostProcessConfig,
    ceiling: QualityCeiling,
    knobs: Seq<QualityCycle>,
    a: Seq<PostProcessConfig>,
    b: Seq<PostProcessConfig>,
    k: int,
)
    requires
        always_same(coarser),
        clamps_in_turn(coarser, cfg, ceiling, knobs, a),
        clamps_in_turn(coarser, cfg, ceiling, knobs, b),
        0 <= k <= knobs.len(),
    ensures
        a[k] == b[k],
    decreases k,
{
    if k > 0 {
        lemma_turns_agree(coarser, cfg, ceiling, knobs, a, b, k - 1);
        assert(is_clamp(coarser, a[k - 1], knobs[k - 1], ceiling, a[k - 1 + 1]));
        assert(is_clamp(coarser, b[k - 1], knobs[k - 1], ceiling, b[k - 1 + 1]));
    }
}

/// The values that a quality preset governs.
#[derive(Debug, Clone, Copy, PartialEq, Eq, Structural)]
pub struct Governed {
    pub post_config: PostProcessConfig,
    pub render_scale: u32,
    pub shadow_map_size: u32,
    pub shadow_update: u32,
    pub shadow_distance: u32,
    pub shadow_cascades: u32,
    pub anisotropy: u32,
}

/// Whether `r` is what a ceiling makes of authored values.
pub open spec fn is_governed<F: Fn(Scale, u32, u32) -> u32>(
    coarser: F,
    authored: Governed,
    ceiling: QualityCeiling,
    knobs: Seq<QualityCycle>,
    r: Governed,
) -> bool {
    &&& is_under(coarser, authored.post_config, ceiling, knobs, r.post_config)
    &&& call_ensures(
        coarser,
        (Scale::RenderScale, authored.render_scale, ceiling.min_upscale),
        r.render_scale,
    )
    &&& call_ensures(
        coarser,
        (Scale::ShadowMapSize, authored.shadow_map_size, ceiling.shadow_map_size),
        r.shadow_map_size,
    )
    &&& call_ensures(
        coarser,
        (Scale::ShadowUpdate, authored.shadow_update, ceiling.shadow_update),
        r.shadow_update,
    )
    &&& r.shadow_distance == fewer(authored.shadow_distance, ceiling.shadow_distance)
    &&& r.shadow_cascades == fewer(authored.shadow_cascades, ceiling.shadow_cascades)
    &&& r.anisotropy == fewer(authored.anisotropy, ceiling.anisotropy)
}

/// Bring the authored values under a ceiling.
pub fn govern<F: Fn(Scale, u32, u32) -> u32>(
    authored: &Governed,
    ceiling: &QualityCeiling,
    knobs: &Vec<QualityCycle>,
    coarser: &F,
) -> (r: Governed)
    requires
        forall|s: Scale, v: u32, l: u32| call_requires(*coarser, (s, v, l)),
    ensures
        is_governed(*coarser, *authored, *ceiling, knobs@, r),
{
    Governed {
        post_config: under_ceiling(&authored.post_config, ceiling, knobs, coarser),
        render_scale: coarser(Scale::RenderScale, authored.render_scale, ceiling.min_upscale),
        shadow_map_size: coarser(
            Scale::ShadowMapSize,
            authored.shadow_map_size,
            ceiling.shadow_map_size,
        ),
        shadow_update: coarser(
            Scale::ShadowUpdate,
            authored.shadow_update,
            ceiling.shadow_update,
        ),
        shadow_distance: least_of(authored.shadow_distance, ceiling.shadow_distance),
        shadow_cascades: least_of(authored.shadow_cascades, ceiling.shadow_cascades),
        anisotropy: least_of(authored.anisotropy, ceiling.anisotropy),
    }
}

/// What a ceiling makes of authored values depends on nothing else.
pub proof fn law_governed_is_unique<F: Fn(Scale, u32, u32) -> u32>(
    coarser: F,
    authored: Governed,
    ceiling: QualityCeiling,
    knobs: Seq<QualityCycle>,
    a: Governed,
    b: Governed,
)
    requires
        always_same(coarser),
        is_governed(coarser, authored, ceiling, knobs, a),
        is_governed(coarser, authored, ceiling, knobs, b),
    ensures
        a == b,
{
    let start = features_under(authored.post_config, ceiling);
    let x = choose|steps: Seq<PostProcessConfig>| #[trigger]
        clamps_in_turn(coarser, start, ceiling, knobs, steps) && a.post_config == steps.last();
    let y = choose|steps: Seq<PostProcessConfig>| #[trigger]
        clamps_in_turn(coarser, start, ceiling, knobs, steps) && b.post_config == steps.last();
    lemma_turns_agree(coarser, start, ceiling, knobs, x, y, knobs.len() as int);
}

/// A ceiling never makes a governed value finer.
pub proof fn law_governed_only_lowers<F: Fn(Scale, u32, u32) -> u32>(
    coarser: F,
    fineness: spec_fn(Scale, u32) -> int,
    authored: Governed,
    ceiling: QualityCeiling,
    knobs: Seq<QualityCycle>,
    r: Governed,
)
    requires
        only_coarsens(coarser, fineness),
        is_governed(coarser, authored, ceiling, knobs, r),
    ensures
        fineness(Scale::RenderScale, r.render_scale) <= fineness(
            Scale::RenderScale,
            authored.render_scale,
        ),
        fineness(Scale::ShadowMapSize, r.shadow_map_size) <= fineness(
            Scale::ShadowMapSize,
            authored.shadow_map_size,
        ),
        fineness(Scale::ShadowUpdate, r.shadow_update) <= fineness(
            Scale::ShadowUpdate,
            authored.shadow_update,
        ),
        r.shadow_distance <= authored.shadow_distance,
        r.shadow_cascades <= authored.shadow_cascades,
        r.anisotropy <= authored.anisotropy,
{
}

/// A toggle is its own switch of the configuration: it reads and sets that one, and leaves
/// every other field alone.
pub proof fn law_toggle_is_its_own_switch(cfg: PostProcessConfig, on: bool)
    ensures
        toggle_state(cfg, QualityToggle::Taa) is None,
        toggle_state(cfg, QualityToggle::Ssao) == Some(cfg.ssao),
        toggle_state(cfg, QualityToggle::Ssr) == Some(cfg.ssr),
        toggle_state(cfg, QualityToggle::RayTracedReflections) == Some(cfg.ray_traced_reflections),
        toggle_state(cfg, QualityToggle::Ssgi) == Some(
            cfg.indirect_lighting == IndirectLighting::Ssgi,
        ),
        toggle_state(cfg, QualityToggle::AutoExposure) == Some(cfg.auto_exposure),
        with_toggle(cfg, QualityToggle::Taa, on) == cfg,
        with_toggle(cfg, QualityToggle::Ssao, on) == (PostProcessConfig { ssao: on, ..cfg }),
        with_toggle(cfg, QualityToggle::Ssr, on) == (PostProcessConfig { ssr: on, ..cfg }),
        with_toggle(cfg, QualityToggle::RayTracedReflections, on) == (PostProcessConfig {
            ray_traced_reflections: on,
            ..cfg
        }),
        with_toggle(cfg, QualityToggle::Ssgi, true) == (PostProcessConfig {
            indirect_lighting: IndirectLighting::Ssgi,
            ..cfg
        }),
        with_toggle(cfg, QualityToggle::Ssgi, false) == (PostProcessConfig {
            indirect_lighting: IndirectLighting::Ibl,
            ..cfg
        }),
        with_toggle(cfg, QualityToggle::AutoExposure, on) == (PostProcessConfig {
            auto_exposure: on,
            ..cfg
        }),
{
}

/// A knob is its own value of the configuration: it reads and sets that one, and leaves
/// every other field alone.
pub proof fn law_knob_is_its_own_value(cfg: PostProcessConfig, value: u32)
    ensures
        knob(cfg, QualityCycle::AaMode) == cfg.aa_mode,
        knob(cfg, QualityCycle::SsgiResolution) == cfg.ssgi_resolution,
        knob(cfg, QualityCycle::SsgiRays) == cfg.ssgi_rays,
        knob(cfg, QualityCycle::SsgiSteps) == cfg.ssgi_steps,
        knob(cfg, QualityCycle::ReflectionBlurResolution) == cfg.reflection_blur_resolution,
        with_knob(cfg, QualityCycle::AaMode, value) == (PostProcessConfig {
            aa_mode: value,
            ..cfg
        }),
        with_knob(cfg, QualityCycle::SsgiResolution, value) == (PostProcessConfig {
            ssgi_resolution: value,
            ..cfg
        }),
        with_knob(cfg, QualityCycle::SsgiRays, value) == (PostProcessConfig {
            ssgi_rays: value,
            ..cfg
        }),
        with_knob(cfg, QualityCycle::SsgiSteps, value) == (PostProcessConfig {
            ssgi_steps: value,
            ..cfg
        }),
        with_knob(cfg, QualityCycle::ReflectionBlurResolution, value) == (PostProcessConfig {
            reflection_blur_resolution: value,
            ..cfg
        }),
{
}

/// A toggle and a knob are named by their field of the configuration.
pub proof fn law_keys_name_their_fields()
    ensures
        toggle_text(QualityToggle::Taa) == "taa"@,
        toggle_text(QualityToggle::Ssao) == "ssao"@,
        toggle_text(QualityToggle::Ssr) == "ssr"@,
        toggle_text(QualityToggle::RayTracedReflections) == "ray_traced_reflections"@,
        toggle_text(QualityToggle::Ssgi) == "ssgi"@,
        toggle_text(QualityToggle::AutoExposure) == "auto_exposure"@,
        cycle_text(QualityCycle::AaMode) == "aa_mode"@,
        cycle_text(QualityCycle::SsgiResolution) == "ssgi_resolution"@,
        cycle_text(QualityCycle::SsgiRays) == "ssgi_rays"@,
        cycle_text(QualityCycle::SsgiSteps) == "ssgi_steps"@,
        cycle_text(QualityCycle::ReflectionBlurResolution) == "reflection_blur_resolution"@,
{
}

/// Whether a choice of the coarser setting stays within the limit, and leaves alone what is
/// within it already.
pub open spec fn holds_the_limit<F: Fn(Scale, u32, u32) -> u32>(
    coarser: F,
    fineness: spec_fn(Scale, u32) -> int,
) -> bool {
    forall|s: Scale, v: u32, l: u32, r: u32| #[trigger]
        call_ensures(coarser, (s, v, l), r) ==> fineness(s, r) <= fineness(s, l) && (fineness(s, v)
            <= fineness(s, l) ==> r == v)
}

/// A clamped knob is within its own limit of the ceiling, and one that was within it stays
/// as it was: a count within the ceiling's count of the same name, and any other knob within
/// the ceiling's setting of the same name on the scale of that name.
pub proof fn law_clamped_knob_is_within_its_limit<F: Fn(Scale, u32, u32) -> u32>(
    coarser: F,
    fineness: spec_fn(Scale, u32) -> int,
    cfg: PostProcessConfig,
    c: QualityCycle,
    ceiling: QualityCeiling,
    now: PostProcessConfig,
)
    requires
        holds_the_limit(coarser, fineness),
        is_clamp(coarser, cfg, c, ceiling, now),
    ensures
        c == QualityCycle::AaMode ==> fineness(Scale::AaMode, now.aa_mode) <= fineness(
            Scale::AaMode,
            ceiling.aa_mode,
        ),
        c == QualityCycle::AaMode && fineness(Scale::AaMode, cfg.aa_mode) <= fineness(
            Scale::AaMode,
            ceiling.aa_mode,
        ) ==> now == cfg,
        c == QualityCycle::SsgiResolution ==> fineness(Scale::SsgiResolution, now.ssgi_resolution)
            <= fineness(Scale::SsgiResolution, ceiling.ssgi_resolution),
        c == QualityCycle::SsgiResolution && fineness(Scale::SsgiResolution, cfg.ssgi_resolution)
            <= fineness(Scale::SsgiResolution, ceiling.ssgi_resolution) ==> now == cfg,
        c == QualityCycle::ReflectionBlurResolution ==> fineness(
            Scale::ReflectionBlurResolution,
            now.reflection_blur_resolution,
        ) <= fineness(Scale::ReflectionBlurResolution, ceiling.reflection_blur_resolution),
        c == QualityCycle::ReflectionBlurResolution && fineness(
            Scale::ReflectionBlurResolution,
            cfg.reflection_blur_resolution,
        ) <= fineness(Scale::ReflectionBlurResolution, ceiling.reflection_blur_resolution) ==> now
            == cfg,
        c == QualityCycle::SsgiRays ==> now.ssgi_rays <= ceiling.ssgi_rays && (cfg.ssgi_rays
            <= ceiling.ssgi_rays ==> now == cfg) && (cfg.ssgi_rays > ceiling.ssgi_rays
            ==> now.ssgi_rays == ceiling.ssgi_rays),
        c == QualityCycle::SsgiSteps ==> now.ssgi_steps <= ceiling.ssgi_steps && (cfg.ssgi_steps
            <= ceiling.ssgi_steps ==> now == cfg) && (cfg.ssgi_steps > ceiling.ssgi_steps
            ==> now.ssgi_steps == ceiling.ssgi_steps),
{
}

/// The values that a ceiling governs are within its limits of the same names, and those that
/// were within them stay as they were.
pub proof fn law_governed_is_within_the_ceiling<F: Fn(Scale, u32, u32) -> u32>(
    coarser: F,
    fineness: spec_fn(Scale, u32) -> int,
    authored: Governed,
    ceiling: QualityCeiling,
    knobs: Seq<QualityCycle>,
    r: Governed,
)
    requires
        holds_the_limit(coarser, fineness),
        is_governed(coarser, authored, ceiling, knobs, r),
    ensures
        fineness(Scale::RenderScale, r.render_scale) <= fineness(
            Scale::RenderScale,
            ceiling.min_upscale,
        ),
        fineness(Scale::RenderScale, authored.render_scale) <= fineness(
            Scale::RenderScale,
            ceiling.min_upscale,
        ) ==> r.render_scale == authored.render_scale,
        fineness(Scale::ShadowMapSize, r.shadow_map_size) <= fineness(
            Scale::ShadowMapSize,
            ceiling.shadow_map_size,
        ),
        fineness(Scale::ShadowMapSize, authored.shadow_map_size) <= fineness(
            Scale::ShadowMapSize,
            ceiling.shadow_map_size,
        ) ==> r.shadow_map_size == authored.shadow_map_size,
        fineness(Scale::ShadowUpdate, r.shadow_update) <= fineness(
            Scale::ShadowUpdate,
            ceiling.shadow_update,
        ),
        fineness(Scale::ShadowUpdate, authored.shadow_update) <= fineness(
            Scale::ShadowUpdate,
            ceiling.shadow_update,
        ) ==> r.shadow_update == authored.shadow_update,
        r.shadow_distance <= ceiling.shadow_distance,
        authored.shadow_distance <= ceiling.shadow_distance ==> r.shadow_distance
            == authored.shadow_distance,
        r.shadow_distance == authored.shadow_distance || r.shadow_distance
            == ceiling.shadow_distance,
        r.shadow_cascades <= ceiling.shadow_cascades,
        r.shadow_cascades == authored.shadow_cascades || r.shadow_cascades
            == ceiling.shadow_cascades,
        authored.shadow_cascades <= ceiling.shadow_cascades ==> r.shadow_cascades
            == authored.shadow_cascades,
        r.anisotropy <= ceiling.anisotropy,
        r.anisotropy == authored.anisotropy || r.anisotropy == ceiling.anisotropy,
        authored.anisotropy <= ceiling.anisotropy ==> r.anisotropy == authored.anisotropy,
{
}

/// A ceiling turns off exactly the features that it does not allow by name, and touches
/// nothing else but the listed knobs.
pub proof fn law_ceiling_turns_off_by_name<F: Fn(Scale, u32, u32) -> u32>(
    coarser: F,
    authored: PostProcessConfig,
    ceiling: QualityCeiling,
    knobs: Seq<QualityCycle>,
    r: PostProcessConfig,
)
    requires
        is_under(coarser, authored, ceiling, knobs, r),
    ensures
        r.ssao == (authored.ssao && ceiling.ssao),
        r.ssr == (authored.ssr && ceiling.ssr),
        r.ray_traced_reflections == (authored.ray_traced_reflections
            && ceiling.ray_traced_reflections),
        r.indirect_lighting == IndirectLighting::Ssgi <==> authored.indirect_lighting
            == IndirectLighting::Ssgi && ceiling.ssgi,
        r.auto_exposure == (authored.auto_exposure && ceiling.auto_exposure),
        r.upscale_quality == authored.upscale_quality,
        r.upscale_backend == authored.upscale_backend,
        r.hdr_display == authored.hdr_display,
        r.hdr_pq == authored.hdr_pq,
        r.temporal_upscaling == authored.temporal_upscaling,
        r.occlusion_two_pass == authored.occlusion_two_pass,
        r.exposure_ev == authored.exposure_ev,
        r.ssao_radius == authored.ssao_radius,
        r.ssao_intensity == authored.ssao_intensity,
        r.ssr_intensity == authored.ssr_intensity,
        r.ssr_max_distance == authored.ssr_max_distance,
        r.ssgi_intensity == authored.ssgi_intensity,
        r.ssgi_max_distance == authored.ssgi_max_distance,
        r.auto_exposure_min_ev == authored.auto_exposure_min_ev,
        r.auto_exposure_max_ev == authored.auto_exposure_max_ev,
        r.auto_exposure_speed == authored.auto_exposure_speed,
{
    let start = features_under(authored, ceiling);
    let steps = choose|steps: Seq<PostProcessConfig>| #[trigger]
        clamps_in_turn(coarser, start, ceiling, knobs, steps) && r == steps.last();
    lemma_turns_move_knobs_only(coarser, start, ceiling, knobs, steps, knobs.len() as int);
}

/// Clamping knobs in turn moves no field but theirs.
proof fn lemma_turns_move_knobs_only<F: Fn(Scale, u32, u32) -> u32>(
    coarser: F,
    cfg: PostProcessConfig,
    ceiling: QualityCeiling,
    knobs: Seq<QualityCycle>,
    steps: Seq<PostProcessConfig>,
    k: int,
)
    requires
        clamps_in_turn(coarser, cfg, ceiling, knobs, steps),
        0 <= k <= knobs.len(),
    ensures
        steps[k] == (PostProcessConfig {
            aa_mode: steps[k].aa_mode,
            ssgi_resolution: steps[k].ssgi_resolution,
            ssgi_rays: steps[k].ssgi_rays,
            ssgi_steps: steps[k].ssgi_steps,
            reflection_blur_resolution: steps[k].reflection_blur_resolution,
            ..cfg
        }),
    decreases k,
{
    if k > 0 {
        lemma_turns_move_knobs_only(coarser, cfg, ceiling, knobs, steps, k - 1);
        assert(is_clamp(coarser, steps[k - 1], knobs[k - 1], ceiling, steps[k - 1 + 1]));
    }
}

} // verus!
