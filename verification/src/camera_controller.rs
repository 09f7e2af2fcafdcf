//! The first-person and fly-through camera controller: which input turns and moves the
//! camera, what is handed to physics, and which prop an interaction reaches.
//!
//! Angles, velocities and distances are computed by functions that the caller hands in.

use crate::float_bits::{FloatBits, Mat4, Vec3, zero};
use crate::input::Controls;
use vstd::prelude::*;

verus! {

/// The pattern of the reach of an interaction in world units, three.
pub const INTERACT_REACH_BITS: u32 = 0x4040_0000;

/// The pattern of the least cosine between view and target, a half.
pub const INTERACT_MIN_DOT_BITS: u32 = 0x3f00_0000;

/// The pattern of the longest step in seconds, a tenth.
pub const MAX_STEP_BITS: u32 = 0x3dcc_cccd;

/// The pattern of the steepest pitch, a hundredth below a right angle.
pub const MAX_PITCH_BITS: u32 = 0x3fc7_c82d;

/// The pattern of the steepest pitch downwards.
pub const MIN_PITCH_BITS: u32 = 0xbfc7_c82d;

/// The authored controller settings of a camera.
#[derive(Debug, Clone, Copy)]
pub struct CameraController {
    pub free_fly: bool,
    pub move_speed: FloatBits,
    pub sprint_multiplier: FloatBits,
    pub mouse_sensitivity: FloatBits,
    pub player_radius: FloatBits,
    pub bounds_min: Vec3,
    pub bounds_max: Vec3,
}

/// The part of a camera that the controller drives.
#[derive(Debug, Clone, Copy)]
pub struct Camera3D {
    pub position: Vec3,
    pub yaw: FloatBits,
    pub pitch: FloatBits,
    /// The movement that physics is asked for.
    pub desired_move: Vec3,
    pub jump_requested: bool,
    pub interact_requested: bool,
    /// The view from where the controller left the camera; physics overwrites it once
    /// it has moved the camera.
    pub view_matrix: Mat4,
}

/// The controller's state.
#[derive(Debug)]
pub struct Camera3DSystem {
    pub free_fly: bool,
    pub move_speed: FloatBits,
    pub sprint_multiplier: FloatBits,
    pub mouse_sensitivity: FloatBits,
    pub player_radius: FloatBits,
    pub bounds_min: Vec3,
    pub bounds_max: Vec3,
    /// When the last step was made, in nanoseconds.
    pub last_step: Option<u64>,
    /// The smoothed velocity.
    pub velocity: Vec3,
    /// The places of the props that can be interacted with.
    pub interactable_indices: Vec<usize>,
    /// The entities that can be interacted with, where props are taken apart.
    pub interactable_entities: Vec<u64>,
    pub decomposed: bool,
}

/// What a camera's movement is computed from. `rise` is set only in free flight.
#[derive(Debug, Clone, Copy)]
pub struct MotionRequest {
    pub free_fly: bool,
    pub yaw: FloatBits,
    pub pitch: FloatBits,
    pub position: Vec3,
    pub velocity: Vec3,
    pub speed: FloatBits,
    pub forward: bool,
    pub backward: bool,
    pub right: bool,
    pub left: bool,
    pub rise: bool,
    pub dt: FloatBits,
}

/// A camera's movement: the new smoothed velocity, and the position it leads to in
/// free flight.
#[derive(Debug, Clone, Copy)]
pub struct Motion {
    pub velocity: Vec3,
    pub flown: Vec3,
}

/// What is interacted with.
#[derive(Debug, Clone, Copy, PartialEq, Eq, Structural)]
pub enum Target {
    Entity(u64),
    Prop(usize),
}

/// A pitch kept short of straight up and straight down.
pub open spec fn level(pitch: FloatBits) -> FloatBits {
    pitch.clamped(FloatBits { bits: MIN_PITCH_BITS }, FloatBits { bits: MAX_PITCH_BITS })
}

/// The places among the first `k` flags that are set.
pub open spec fn flagged(flags: Seq<bool>, k: nat) -> Seq<usize>
    decreases k,
{
    if k == 0 {
        Seq::empty()
    } else if flags[k - 1] {
        flagged(flags, (k - 1) as nat).push((k - 1) as usize)
    } else {
        flagged(flags, (k - 1) as nat)
    }
}

/// A measured target can be interacted with: it is within reach, not where the camera
/// stands, and the camera faces it.
pub open spec fn reachable(dist: FloatBits, dot: FloatBits) -> bool {
    &&& dist.less(FloatBits { bits: INTERACT_REACH_BITS })
    &&& zero().less(dist)
    &&& FloatBits { bits: INTERACT_MIN_DOT_BITS }.less(dot)
}

/// The distance of a measurement.
pub open spec fn distance(m: Option<(FloatBits, FloatBits)>) -> FloatBits {
    match m {
        Some((dist, _)) => dist,
        None => zero(),
    }
}

/// A measurement is there and shows a target that can be interacted with.
pub open spec fn offers(m: Option<(FloatBits, FloatBits)>) -> bool {
    match m {
        Some((dist, dot)) => reachable(dist, dot),
        None => false,
    }
}

/// The first `k` targets' nearest one that can be interacted with is the one at `i`;
/// of equally near ones the first.
pub open spec fn is_nearest(ms: Seq<Option<(FloatBits, FloatBits)>>, k: int, i: int) -> bool {
    &&& 0 <= i < k
    &&& offers(ms[i])
    &&& forall|j: int|
        0 <= j < k && offers(#[trigger] ms[j]) ==> {
            &&& distance(ms[i]).at_most(distance(ms[j]))
            &&& j < i ==> distance(ms[i]).less(distance(ms[j]))
        }
}

/// A measurement of a target: none where it is gone, and otherwise its distance from
/// the eye and the cosine between it and the view. `at` gives the target's place, and
/// `measure` measures a place from an eye at a yaw.
pub open spec fn is_measure<
    T,
    A: Fn(T) -> Option<Vec3>,
    M: Fn(Vec3, FloatBits, Vec3) -> (FloatBits, FloatBits),
>(
    at: A,
    measure: M,
    eye: (Vec3, FloatBits),
    target: T,
    m: Option<(FloatBits, FloatBits)>,
) -> bool {
    exists|place: Option<Vec3>|
        {
            &&& #[trigger] call_ensures(at, (target,), place)
            &&& match (place, m) {
                (Some(place), Some(m)) => call_ensures(measure, (eye.0, eye.1, place), m),
                (None, None) => true,
                _ => false,
            }
        }
}

/// Whether a list holds a measurement of each target.
pub open spec fn are_measured<
    T,
    A: Fn(T) -> Option<Vec3>,
    M: Fn(Vec3, FloatBits, Vec3) -> (FloatBits, FloatBits),
>(
    at: A,
    measure: M,
    eye: (Vec3, FloatBits),
    targets: Seq<T>,
    ms: Seq<Option<(FloatBits, FloatBits)>>,
) -> bool {
    &&& ms.len() == targets.len()
    &&& forall|i: int|
        0 <= i < targets.len() ==> is_measure(at, measure, eye, targets[i], #[trigger] ms[i])
}

/// Whether a target is the nearest of a list by some measurement of it; none where
/// nothing can be interacted with.
pub open spec fn picks<
    T,
    A: Fn(T) -> Option<Vec3>,
    M: Fn(Vec3, FloatBits, Vec3) -> (FloatBits, FloatBits),
>(at: A, measure: M, eye: (Vec3, FloatBits), targets: Seq<T>, r: Option<T>) -> bool {
    exists|ms: Seq<Option<(FloatBits, FloatBits)>>|
        {
            &&& #[trigger] are_measured(at, measure, eye, targets, ms)
            &&& match r {
                Some(t) => exists|i: int| #[trigger]
                    is_nearest(ms, ms.len() as int, i) && t == targets[i],
                None => forall|i: int| 0 <= i < ms.len() ==> !offers(#[trigger] ms[i]),
            }
        }
}

/// The nearest target that can be interacted with. `at` gives a target's place, and
/// nothing for one that is gone; `measure` gives the distance of a place from an eye
/// and the cosine between it and the view.
pub fn nearest<
    T: Copy,
    A: Fn(T) -> Option<Vec3>,
    M: Fn(Vec3, FloatBits, Vec3) -> (FloatBits, FloatBits),
>(targets: &Vec<T>, eye: (Vec3, FloatBits), at: &A, measure: &M) -> (r: Option<T>)
    requires
        forall|t: T| call_requires(*at, (t,)),
        forall|e: Vec3, yaw: FloatBits, p: Vec3| call_requires(*measure, (e, yaw, p)),
    ensures
        picks(*at, *measure, eye, targets@, r),
{
    let ghost mut ms: Seq<Option<(FloatBits, FloatBits)>> = Seq::empty();
    let mut best: Option<(FloatBits, usize)> = None;
    let mut i: usize = 0;
    while i < targets.len()
        invariant
            i <= targets@.len(),
            ms.len() == i,
            forall|t: T| call_requires(*at, (t,)),
            forall|e: Vec3, yaw: FloatBits, p: Vec3| call_requires(*measure, (e, yaw, p)),
            forall|j: int|
                0 <= j < i ==> is_measure(*at, *measure, eye, targets@[j], #[trigger] ms[j]),
            match best {
                Some((d, at)) => is_nearest(ms, i as int, at as int) && distance(ms[at as int]) == d,
                None => forall|j: int| 0 <= j < i ==> !offers(#[trigger] ms[j]),
            },
        decreases targets@.len() - i,
    {
        let target: T = targets[i];
        let place: Option<Vec3> = at(target);
        assert(call_ensures(*at, (target,), place));
        let m: Option<(FloatBits, FloatBits)> = match place {
            Some(p) => Some(measure(eye.0, eye.1, p)),
            None => None,
        };
        assert(is_measure(*at, *measure, eye, target, m));
        let ghost before = ms;
        proof {
            ms = ms.push(m);
            assert forall|j: int| 0 <= j < i implies #[trigger] ms[j] == before[j] by {}
        }
        match m {
            Some((dist, dot)) => {
                if dist.lt(FloatBits::new(INTERACT_REACH_BITS)) && FloatBits::new(0).lt(dist)
                    && FloatBits::new(INTERACT_MIN_DOT_BITS).lt(dot) {
                    let nearer: bool = match best {
                        Some((d, _)) => dist.lt(d),
                        None => true,
                    };
                    if nearer {
                        best = Some((dist, i));
                    }
                }
            },
            None => {},
        }
        i = i + 1;
    }
    assert(are_measured(*at, *measure, eye, targets@, ms));
    match best {
        Some((_, at)) => {
            assert(is_nearest(ms, ms.len() as int, at as int));
            Some(targets[at])
        },
        None => None,
    }
}

/// The eye that interactions are measured from: the first camera's place and yaw, and
/// the origin without one.
pub open spec fn is_eye(cameras: Seq<Camera3D>, eye: (Vec3, FloatBits)) -> bool {
    if cameras.len() > 0 {
        eye == (cameras[0].position, cameras[0].yaw)
    } else {
        is_still(eye.0) && eye.1 == zero()
    }
}

/// What an interaction from an eye reaches: nothing without the key, and otherwise the
/// nearest target in front, an entity where props are taken apart and a prop otherwise.
pub open spec fn is_interaction<
    E: Fn(u64) -> Option<Vec3>,
    Q: Fn(usize) -> Option<Vec3>,
    D: Fn(Vec3, FloatBits, Vec3) -> (FloatBits, FloatBits),
>(
    sys: Camera3DSystem,
    pressed: bool,
    eye: (Vec3, FloatBits),
    entity_at: E,
    prop_at: Q,
    measure: D,
    r: Option<Target>,
) -> bool {
    if !pressed {
        r is None
    } else if sys.decomposed {
        &&& r matches Some(t) ==> t is Entity
        &&& picks(
            entity_at,
            measure,
            eye,
            sys.interactable_entities@,
            match r {
                Some(Target::Entity(e)) => Some(e),
                _ => None,
            },
        )
    } else {
        &&& r matches Some(t) ==> t is Prop
        &&& picks(
            prop_at,
            measure,
            eye,
            sys.interactable_indices@,
            match r {
                Some(Target::Prop(p)) => Some(p),
                _ => None,
            },
        )
    }
}

/// The speed of a camera that sprints or not. `scale` multiplies.
pub open spec fn is_speed<X: Fn(FloatBits, FloatBits) -> FloatBits>(
    scale: X,
    sys: Camera3DSystem,
    sprint: bool,
    speed: FloatBits,
) -> bool {
    if sprint {
        call_ensures(scale, (sys.move_speed, sys.sprint_multiplier), speed)
    } else {
        speed == sys.move_speed
    }
}

/// What a camera's movement is computed from.
pub open spec fn request(
    sys: Camera3DSystem,
    cam: Camera3D,
    velocity: Vec3,
    input: Controls,
    dt: FloatBits,
    yaw: FloatBits,
    pitch: FloatBits,
    speed: FloatBits,
) -> MotionRequest {
    MotionRequest {
        free_fly: sys.free_fly,
        yaw,
        pitch,
        position: cam.position,
        velocity,
        speed,
        forward: input.forward,
        backward: input.backward,
        right: input.right,
        left: input.left,
        rise: sys.free_fly && input.jump,
        dt,
    }
}

/// A vector of zeros.
pub open spec fn is_still(v: Vec3) -> bool {
    v[0] == zero() && v[1] == zero() && v[2] == zero()
}

/// A camera after a movement. In free flight it stands where the movement leads and
/// asks physics for nothing; a walker is held within the bounds in the plane and asks
/// physics for the velocity and the jump.
pub open spec fn is_placed(
    free_fly: bool,
    cam: Camera3D,
    input: Controls,
    lo: Vec3,
    hi: Vec3,
    yaw: FloatBits,
    pitch: FloatBits,
    m: Motion,
    now: Camera3D,
) -> bool {
    &&& now.yaw == yaw
    &&& now.pitch == pitch
    &&& now.interact_requested == input.interact
    &&& if free_fly {
        &&& now.position == m.flown
        &&& is_still(now.desired_move)
        &&& !now.jump_requested
    } else {
        &&& now.position[0] == cam.position[0].clamped(lo[0], hi[0])
        &&& now.position[1] == cam.position[1]
        &&& now.position[2] == cam.position[2].clamped(lo[2], hi[2])
        &&& now.desired_move == m.velocity
        &&& now.jump_requested == input.jump
    }
}

/// One camera's step by given results of the outside functions: `raw` is the pitch
/// before it is held level.
pub open spec fn moves<
    K: Fn(FloatBits, FloatBits, FloatBits) -> FloatBits,
    X: Fn(FloatBits, FloatBits) -> FloatBits,
    Z: Fn(MotionRequest) -> Motion,
    W: Fn(Vec3, FloatBits, FloatBits) -> Mat4,
>(
    look: K,
    scale: X,
    motion: Z,
    view: W,
    sys: Camera3DSystem,
    was: (Camera3D, Vec3),
    input: Controls,
    dt: FloatBits,
    bounds: (Vec3, Vec3),
    found: (FloatBits, FloatBits, FloatBits, Motion),
    now: (Camera3D, Vec3),
) -> bool {
    let (yaw, raw, speed, m) = found;
    &&& call_ensures(look, (was.0.yaw, input.mouse_dx, sys.mouse_sensitivity), yaw)
    &&& call_ensures(look, (was.0.pitch, input.mouse_dy, sys.mouse_sensitivity), raw)
    &&& is_speed(scale, sys, input.sprint, speed)
    &&& call_ensures(
        motion,
        (request(sys, was.0, was.1, input, dt, yaw, level(raw), speed),),
        m,
    )
    &&& is_placed(sys.free_fly, was.0, input, bounds.0, bounds.1, yaw, level(raw), m, now.0)
    &&& call_ensures(view, (now.0.position, now.0.yaw, now.0.pitch), now.0.view_matrix)
    &&& now.1 == m.velocity
}

/// One camera's step.
pub open spec fn is_moved<
    K: Fn(FloatBits, FloatBits, FloatBits) -> FloatBits,
    X: Fn(FloatBits, FloatBits) -> FloatBits,
    Z: Fn(MotionRequest) -> Motion,
    W: Fn(Vec3, FloatBits, FloatBits) -> Mat4,
>(
    look: K,
    scale: X,
    motion: Z,
    view: W,
    sys: Camera3DSystem,
    was: (Camera3D, Vec3),
    input: Controls,
    dt: FloatBits,
    bounds: (Vec3, Vec3),
    now: (Camera3D, Vec3),
) -> bool {
    exists|found: (FloatBits, FloatBits, FloatBits, Motion)| #[trigger]
        moves(look, scale, motion, view, sys, was, input, dt, bounds, found, now)
}

/// A controller with the last of some changes of the sensitivity.
pub open spec fn with_controls(sys: Camera3DSystem, sensitivities: Seq<FloatBits>) -> Camera3DSystem {
    Camera3DSystem {
        mouse_sensitivity: if sensitivities.len() > 0 {
            sensitivities.last()
        } else {
            sys.mouse_sensitivity
        },
        ..sys
    }
}

/// The length of a step in seconds: at most a tenth, and none at the first.
pub open spec fn is_step_length<S: Fn(u64) -> FloatBits>(
    secs: S,
    last: Option<u64>,
    now: u64,
    dt: FloatBits,
) -> bool {
    match last {
        None => dt == zero(),
        Some(t) => exists|s: FloatBits|
            {
                &&& #[trigger] call_ensures(secs, (crate::animation::elapsed(t, now),), s)
                &&& dt == s.lesser(FloatBits { bits: MAX_STEP_BITS })
            },
    }
}

/// The bounds of a walker, its radius away from the authored ones: `plus` adds and
/// `minus` subtracts.
pub open spec fn are_bounds<
    P: Fn(FloatBits, FloatBits) -> FloatBits,
    M: Fn(FloatBits, FloatBits) -> FloatBits,
>(plus: P, minus: M, sys: Camera3DSystem, bounds: (Vec3, Vec3)) -> bool {
    &&& call_ensures(plus, (sys.bounds_min[0], sys.player_radius), bounds.0[0])
    &&& call_ensures(plus, (sys.bounds_min[2], sys.player_radius), bounds.0[2])
    &&& call_ensures(minus, (sys.bounds_max[0], sys.player_radius), bounds.1[0])
    &&& call_ensures(minus, (sys.bounds_max[2], sys.player_radius), bounds.1[2])
}

/// There is room between bounds in the plane.
pub open spec fn have_room(bounds: (Vec3, Vec3)) -> bool {
    bounds.0[0].at_most(bounds.1[0]) && bounds.0[2].at_most(bounds.1[2])
}

/// Every camera has moved, each from the velocity that the one before it left: `vs`
/// are those velocities.
pub open spec fn all_moved<
    K: Fn(FloatBits, FloatBits, FloatBits) -> FloatBits,
    X: Fn(FloatBits, FloatBits) -> FloatBits,
    Z: Fn(MotionRequest) -> Motion,
    W: Fn(Vec3, FloatBits, FloatBits) -> Mat4,
>(
    look: K,
    scale: X,
    motion: Z,
    view: W,
    sys: Camera3DSystem,
    input: Controls,
    dt: FloatBits,
    bounds: (Vec3, Vec3),
    was: Seq<Camera3D>,
    now: Seq<Camera3D>,
    vs: Seq<Vec3>,
) -> bool {
    &&& now.len() == was.len()
    &&& vs.len() == was.len() + 1
    &&& forall|j: int|
        0 <= j < was.len() ==> is_moved(
            look,
            scale,
            motion,
            view,
            sys,
            (was[j], vs[j]),
            input,
            dt,
            bounds,
            (#[trigger] now[j], vs[j + 1]),
        )
}

/// A camera's step reads of the controller only what is no velocity.
proof fn lemma_moves_like<
    K: Fn(FloatBits, FloatBits, FloatBits) -> FloatBits,
    X: Fn(FloatBits, FloatBits) -> FloatBits,
    Z: Fn(MotionRequest) -> Motion,
    W: Fn(Vec3, FloatBits, FloatBits) -> Mat4,
>(
    look: K,
    scale: X,
    motion: Z,
    view: W,
    a: Camera3DSystem,
    b: Camera3DSystem,
    was: (Camera3D, Vec3),
    input: Controls,
    dt: FloatBits,
    bounds: (Vec3, Vec3),
    now: (Camera3D, Vec3),
)
    requires
        is_moved(look, scale, motion, view, a, was, input, dt, bounds, now),
        a.same_but_velocity(b) || b.same_but_velocity(a),
    ensures
        is_moved(look, scale, motion, view, b, was, input, dt, bounds, now),
{
    let found = choose|found: (FloatBits, FloatBits, FloatBits, Motion)| #[trigger]
        moves(look, scale, motion, view, a, was, input, dt, bounds, found, now);
    assert(moves(look, scale, motion, view, b, was, input, dt, bounds, found, now));
}

impl Camera3DSystem {
    /// The state of the settings, the targets and the clock is the same.
    pub open spec fn same_but_velocity(self, other: Camera3DSystem) -> bool {
        self == (Camera3DSystem { velocity: self.velocity, ..other })
    }

    /// A controller with a camera's settings.
    pub fn new(c: CameraController) -> (r: Camera3DSystem)
        ensures
            r.free_fly == c.free_fly,
            r.move_speed == c.move_speed,
            r.sprint_multiplier == c.sprint_multiplier,
            r.mouse_sensitivity == c.mouse_sensitivity,
            r.player_radius == c.player_radius,
            r.bounds_min == c.bounds_min,
            r.bounds_max == c.bounds_max,
            r.last_step is None,
            is_still(r.velocity),
            r.interactable_indices@.len() == 0,
            r.interactable_entities@.len() == 0,
            !r.decomposed,
    {
        let z: FloatBits = FloatBits::new(0);
        Camera3DSystem {
            free_fly: c.free_fly,
            move_speed: c.move_speed,
            sprint_multiplier: c.sprint_multiplier,
            mouse_sensitivity: c.mouse_sensitivity,
            player_radius: c.player_radius,
            bounds_min: c.bounds_min,
            bounds_max: c.bounds_max,
            last_step: None,
            velocity: [z, z, z],
            interactable_indices: Vec::new(),
            interactable_entities: Vec::new(),
            decomposed: false,
        }
    }

    /// Stop all smoothed movement.
    pub fn reset_velocity(&mut self)
        ensures
            is_still(final(self).velocity),
            final(self).same_but_velocity(*old(self)),
    {
        let z: FloatBits = FloatBits::new(0);
        self.velocity = [z, z, z];
    }

    /// Begin: a stored sensitivity replaces the authored one, and the targets of
    /// interactions are gathered, by entity or by the place of a prop.
    pub fn init(
        &mut self,
        now: u64,
        stored_sensitivity: Option<FloatBits>,
        decomposed: bool,
        entities: Vec<u64>,
        interactable_props: &Vec<bool>,
    )
        ensures
            final(self).last_step == Some(now),
            final(self).mouse_sensitivity == match stored_sensitivity {
                Some(s) => s,
                None => old(self).mouse_sensitivity,
            },
            final(self).decomposed == decomposed,
            decomposed ==> final(self).interactable_entities == entities
                && final(self).interactable_indices == old(self).interactable_indices,
            !decomposed ==> final(self).interactable_entities == old(self).interactable_entities
                && final(self).interactable_indices@ == old(self).interactable_indices@ + flagged(
                interactable_props@,
                interactable_props@.len(),
            ),
            final(self).free_fly == old(self).free_fly,
            final(self).move_speed == old(self).move_speed,
            final(self).sprint_multiplier == old(self).sprint_multiplier,
            final(self).player_radius == old(self).player_radius,
            final(self).bounds_min == old(self).bounds_min,
            final(self).bounds_max == old(self).bounds_max,
            final(self).velocity == old(self).velocity,
    {
        self.last_step = Some(now);
        match stored_sensitivity {
            Some(s) => {
                self.mouse_sensitivity = s;
            },
            None => {},
        }
        self.decomposed = decomposed;
        if decomposed {
            self.interactable_entities = entities;
        } else {
            let ghost was = *self;
            let mut i: usize = 0;
            assert(self.interactable_indices@ =~= was.interactable_indices@ + flagged(
                interactable_props@,
                0,
            ));
            while i < interactable_props.len()
                invariant
                    i <= interactable_props@.len(),
                    self.interactable_indices@ == was.interactable_indices@ + flagged(
                        interactable_props@,
                        i as nat,
                    ),
                    *self == (Camera3DSystem {
                        interactable_indices: self.interactable_indices,
                        ..was
                    }),
                decreases interactable_props@.len() - i,
            {
                if interactable_props[i] {
                    self.interactable_indices.push(i);
                }
                i = i + 1;
                assert(self.interactable_indices@ =~= was.interactable_indices@ + flagged(
                    interactable_props@,
                    i as nat,
                ));
            }
        }
    }

    /// Take up the changes of the sensitivity that were sent: the last one holds.
    pub fn apply_controls(&mut self, sensitivities: &Vec<FloatBits>)
        ensures
            *final(self) == with_controls(*old(self), sensitivities@),
    {
        let n: usize = sensitivities.len();
        if n > 0 {
            self.mouse_sensitivity = sensitivities[n - 1];
        }
    }

    /// Begin a step with input: the length of the step in seconds, at most a tenth,
    /// and none at the first. `secs` turns nanoseconds into seconds.
    pub fn begin_step<S: Fn(u64) -> FloatBits>(&mut self, now: u64, secs: &S) -> (r: FloatBits)
        requires
            forall|n: u64| call_requires(*secs, (n,)),
        ensures
            *final(self) == (Camera3DSystem { last_step: Some(now), ..*old(self) }),
            is_step_length(*secs, old(self).last_step, now, r),
    {
        let dt: FloatBits = match self.last_step {
            None => FloatBits::new(0),
            Some(t) => {
                let gap: u64 = if t <= now {
                    now - t
                } else {
                    0
                };
                let s: FloatBits = secs(gap);
                assert(call_ensures(*secs, (crate::animation::elapsed(t, now),), s));
                s.min(FloatBits::new(MAX_STEP_BITS))
            },
        };
        self.last_step = Some(now);
        dt
    }

    /// The bounds of a walker, its radius away from the authored ones. `plus` adds and
    /// `minus` subtracts.
    pub fn walker_bounds<
        P: Fn(FloatBits, FloatBits) -> FloatBits,
        M: Fn(FloatBits, FloatBits) -> FloatBits,
    >(&self, plus: &P, minus: &M) -> (r: (Vec3, Vec3))
        requires
            forall|a: FloatBits, b: FloatBits| call_requires(*plus, (a, b)),
            forall|a: FloatBits, b: FloatBits| call_requires(*minus, (a, b)),
        ensures
            are_bounds(*plus, *minus, *self, r),
    {
        let lo: Vec3 = [
            plus(self.bounds_min[0], self.player_radius),
            self.bounds_min[1],
            plus(self.bounds_min[2], self.player_radius),
        ];
        let hi: Vec3 = [
            minus(self.bounds_max[0], self.player_radius),
            self.bounds_max[1],
            minus(self.bounds_max[2], self.player_radius),
        ];
        (lo, hi)
    }

    /// Turn and move one camera. `look` turns an angle by a mouse movement at a
    /// sensitivity, `scale` multiplies, `motion` computes a movement and `view` the view from a
    /// place at two angles. `lo` and `hi` bound a walker.
    pub fn move_camera<
        K: Fn(FloatBits, FloatBits, FloatBits) -> FloatBits,
        X: Fn(FloatBits, FloatBits) -> FloatBits,
        Z: Fn(MotionRequest) -> Motion,
        W: Fn(Vec3, FloatBits, FloatBits) -> Mat4,
    >(
        &mut self,
        cam: &Camera3D,
        input: &Controls,
        dt: FloatBits,
        lo: Vec3,
        hi: Vec3,
        look: &K,
        scale: &X,
        motion: &Z,
        view: &W,
    ) -> (r: Camera3D)
        requires
            !old(self).free_fly ==> lo[0].at_most(hi[0]) && lo[2].at_most(hi[2]),
            forall|a: FloatBits, b: FloatBits, c: FloatBits| call_requires(*look, (a, b, c)),
            forall|a: FloatBits, b: FloatBits| call_requires(*scale, (a, b)),
            forall|q: MotionRequest| call_requires(*motion, (q,)),
            forall|at: Vec3, yaw: FloatBits, pitch: FloatBits|
                call_requires(*view, (at, yaw, pitch)),
        ensures
            final(self).same_but_velocity(*old(self)),
            is_moved(
                *look,
                *scale,
                *motion,
                *view,
                *old(self),
                (*cam, old(self).velocity),
                *input,
                dt,
                (lo, hi),
                (r, final(self).velocity),
            ),
    {
        let yaw: FloatBits = look(cam.yaw, input.mouse_dx, self.mouse_sensitivity);
        let raw: FloatBits = look(cam.pitch, input.mouse_dy, self.mouse_sensitivity);
        let pitch: FloatBits = raw.clamp(
            FloatBits::new(MIN_PITCH_BITS),
            FloatBits::new(MAX_PITCH_BITS),
        );
        let speed: FloatBits = if input.sprint {
            scale(self.move_speed, self.sprint_multiplier)
        } else {
            self.move_speed
        };
        let q: MotionRequest = MotionRequest {
            free_fly: self.free_fly,
            yaw,
            pitch,
            position: cam.position,
            velocity: self.velocity,
            speed,
            forward: input.forward,
            backward: input.backward,
            right: input.right,
            left: input.left,
            rise: self.free_fly && input.jump,
            dt,
        };
        let m: Motion = motion(q);
        self.velocity = m.velocity;
        let z: FloatBits = FloatBits::new(0);
        let r: Camera3D = if self.free_fly {
            Camera3D {
                position: m.flown,
                yaw,
                pitch,
                desired_move: [z, z, z],
                jump_requested: false,
                interact_requested: input.interact,
                view_matrix: view(m.flown, yaw, pitch),
            }
        } else {
            let position: Vec3 = [
                cam.position[0].clamp(lo[0], hi[0]),
                cam.position[1],
                cam.position[2].clamp(lo[2], hi[2]),
            ];
            Camera3D {
                position,
                yaw,
                pitch,
                desired_move: m.velocity,
                jump_requested: input.jump,
                interact_requested: input.interact,
                view_matrix: view(position, yaw, pitch),
            }
        };
        assert(moves(
            *look,
            *scale,
            *motion,
            *view,
            *old(self),
            (*cam, old(self).velocity),
            *input,
            dt,
            (lo, hi),
            (yaw, raw, speed, m),
            (r, self.velocity),
        ));
        r
    }

    /// Turn and move every camera, and take up the changes of the sensitivity.
    fn move_cameras<
        P: Fn(FloatBits, FloatBits) -> FloatBits,
        M: Fn(FloatBits, FloatBits) -> FloatBits,
        S: Fn(u64) -> FloatBits,
        K: Fn(FloatBits, FloatBits, FloatBits) -> FloatBits,
        X: Fn(FloatBits, FloatBits) -> FloatBits,
        Z: Fn(MotionRequest) -> Motion,
        W: Fn(Vec3, FloatBits, FloatBits) -> Mat4,
    >(
        &mut self,
        sensitivities: &Vec<FloatBits>,
        input: Option<Controls>,
        now: u64,
        cameras: &mut Vec<Camera3D>,
        plus: &P,
        minus: &M,
        secs: &S,
        look: &K,
        scale: &X,
        motion: &Z,
        view: &W,
    )
        requires
            forall|a: FloatBits, b: FloatBits| call_requires(*plus, (a, b)),
            forall|a: FloatBits, b: FloatBits| call_requires(*minus, (a, b)),
            !old(self).free_fly && input is Some && old(cameras)@.len() > 0 ==> forall|
                bounds: (Vec3, Vec3),
            | #[trigger] are_bounds(*plus, *minus, *old(self), bounds) ==> have_room(bounds),
            forall|n: u64| call_requires(*secs, (n,)),
            forall|a: FloatBits, b: FloatBits, c: FloatBits| call_requires(*look, (a, b, c)),
            forall|a: FloatBits, b: FloatBits| call_requires(*scale, (a, b)),
            forall|q: MotionRequest| call_requires(*motion, (q,)),
            forall|at: Vec3, yaw: FloatBits, pitch: FloatBits|
                call_requires(*view, (at, yaw, pitch)),
        ensures
            match input {
                None => {
                    &&& *final(self) == with_controls(*old(self), sensitivities@)
                    &&& final(cameras)@ == old(cameras)@
                },
                Some(controls) => {
                    &&& *final(self) == (Camera3DSystem {
                        last_step: Some(now),
                        velocity: final(self).velocity,
                        ..with_controls(*old(self), sensitivities@)
                    })
                    &&& exists|dt: FloatBits, bounds: (Vec3, Vec3), vs: Seq<Vec3>|
                        {
                            &&& is_step_length(*secs, old(self).last_step, now, dt)
                            &&& are_bounds(*plus, *minus, *old(self), bounds)
                            &&& #[trigger] all_moved(
                                *look,
                                *scale,
                                *motion,
                                *view,
                                *final(self),
                                controls,
                                dt,
                                bounds,
                                old(cameras)@,
                                final(cameras)@,
                                vs,
                            )
                            &&& vs[0] == old(self).velocity
                            &&& vs[old(cameras)@.len() as int] == final(self).velocity
                        }
                },
            },
    {
        let ghost began = *self;
        self.apply_controls(sensitivities);
        let controls: Controls = match input {
            None => {
                return;
            },
            Some(c) => c,
        };
        let dt: FloatBits = self.begin_step(now, secs);
        assert(is_step_length(*secs, began.last_step, now, dt));
        let ghost mid = *self;
        let (lo, hi): (Vec3, Vec3) = self.walker_bounds(plus, minus);
        assert(are_bounds(*plus, *minus, began, (lo, hi)));
        let ghost was = cameras@;
        let ghost mut vs: Seq<Vec3> = seq![self.velocity];
        let mut moved: Vec<Camera3D> = Vec::new();
        let mut i: usize = 0;
        while i < cameras.len()
            invariant
                i <= was.len(),
                cameras@ == was,
                self.same_but_velocity(mid),
                !mid.free_fly && was.len() > 0 ==> lo[0].at_most(hi[0]) && lo[2].at_most(hi[2]),
                forall|a: FloatBits, b: FloatBits, c: FloatBits| call_requires(*look, (a, b, c)),
                forall|a: FloatBits, b: FloatBits| call_requires(*scale, (a, b)),
                forall|q: MotionRequest| call_requires(*motion, (q,)),
                forall|at: Vec3, yaw: FloatBits, pitch: FloatBits|
                    call_requires(*view, (at, yaw, pitch)),
                moved@.len() == i,
                vs.len() == i + 1,
                vs[0] == mid.velocity,
                vs[i as int] == self.velocity,
                forall|j: int|
                    0 <= j < i ==> is_moved(
                        *look,
                        *scale,
                        *motion,
                        *view,
                        mid,
                        (was[j], vs[j]),
                        controls,
                        dt,
                        (lo, hi),
                        (#[trigger] moved@[j], vs[j + 1]),
                    ),
            decreases was.len() - i,
        {
            let ghost before = *self;
            let ghost vs0 = vs;
            let cam: Camera3D = cameras[i];
            let next: Camera3D = self.move_camera(
                &cam,
                &controls,
                dt,
                lo,
                hi,
                look,
                scale,
                motion,
                view,
            );
            proof {
                vs = vs.push(self.velocity);
                lemma_moves_like(
                    *look,
                    *scale,
                    *motion,
                    *view,
                    before,
                    mid,
                    (cam, before.velocity),
                    controls,
                    dt,
                    (lo, hi),
                    (next, self.velocity),
                );
                assert forall|j: int| 0 <= j <= i implies #[trigger] vs[j] == vs0[j] by {}
            }
            moved.push(next);
            i = i + 1;
        }
        *cameras = moved;
        proof {
            assert forall|j: int| 0 <= j < was.len() implies is_moved(
                *look,
                *scale,
                *motion,
                *view,
                *self,
                (was[j], vs[j]),
                controls,
                dt,
                (lo, hi),
                (#[trigger] moved@[j], vs[j + 1]),
            ) by {
                lemma_moves_like(
                    *look,
                    *scale,
                    *motion,
                    *view,
                    mid,
                    *self,
                    (was[j], vs[j]),
                    controls,
                    dt,
                    (lo, hi),
                    (moved@[j], vs[j + 1]),
                );
            }
            assert(all_moved(
                *look,
                *scale,
                *motion,
                *view,
                *self,
                controls,
                dt,
                (lo, hi),
                was,
                cameras@,
                vs,
            ));
        }
    }

    /// What an interaction from an eye reaches. `entity_at` and `prop_at` give the place
    /// of a target, and `measure` measures one.
    pub fn interact<
        E: Fn(u64) -> Option<Vec3>,
        Q: Fn(usize) -> Option<Vec3>,
        D: Fn(Vec3, FloatBits, Vec3) -> (FloatBits, FloatBits),
    >(
        &self,
        pressed: bool,
        eye: (Vec3, FloatBits),
        entity_at: &E,
        prop_at: &Q,
        measure: &D,
    ) -> (r: Option<Target>)
        requires
            forall|e: u64| call_requires(*entity_at, (e,)),
            forall|p: usize| call_requires(*prop_at, (p,)),
            forall|e: Vec3, yaw: FloatBits, p: Vec3| call_requires(*measure, (e, yaw, p)),
        ensures
            is_interaction(*self, pressed, eye, *entity_at, *prop_at, *measure, r),
    {
        if !pressed {
            return None;
        }
        if self.decomposed {
            match nearest(&self.interactable_entities, eye, entity_at, measure) {
                Some(e) => Some(Target::Entity(e)),
                None => None,
            }
        } else {
            match nearest(&self.interactable_indices, eye, prop_at, measure) {
                Some(p) => Some(Target::Prop(p)),
                None => None,
            }
        }
    }

    /// One frame. The last change of the sensitivity holds; without input there is
    /// nothing more to do. With input every camera is turned and moved in order, each
    /// from the smoothed velocity that the one before it left, and the interact key
    /// then reaches what the first camera faces. A walker's radius must leave it room
    /// between its bounds.
    pub fn step<
        P: Fn(FloatBits, FloatBits) -> FloatBits,
        M: Fn(FloatBits, FloatBits) -> FloatBits,
        S: Fn(u64) -> FloatBits,
        K: Fn(FloatBits, FloatBits, FloatBits) -> FloatBits,
        X: Fn(FloatBits, FloatBits) -> FloatBits,
        Z: Fn(MotionRequest) -> Motion,
        W: Fn(Vec3, FloatBits, FloatBits) -> Mat4,
        E: Fn(u64) -> Option<Vec3>,
        Q: Fn(usize) -> Option<Vec3>,
        D: Fn(Vec3, FloatBits, Vec3) -> (FloatBits, FloatBits),
    >(
        &mut self,
        sensitivities: &Vec<FloatBits>,
        input: Option<Controls>,
        now: u64,
        cameras: &mut Vec<Camera3D>,
        plus: &P,
        minus: &M,
        secs: &S,
        look: &K,
        scale: &X,
        motion: &Z,
        view: &W,
        entity_at: &E,
        prop_at: &Q,
        measure: &D,
    ) -> (r: Option<Target>)
        requires
            forall|a: FloatBits, b: FloatBits| call_requires(*plus, (a, b)),
            forall|a: FloatBits, b: FloatBits| call_requires(*minus, (a, b)),
            !old(self).free_fly && input is Some && old(cameras)@.len() > 0 ==> forall|
                bounds: (Vec3, Vec3),
            | #[trigger] are_bounds(*plus, *minus, *old(self), bounds) ==> have_room(bounds),
            forall|n: u64| call_requires(*secs, (n,)),
            forall|a: FloatBits, b: FloatBits, c: FloatBits| call_requires(*look, (a, b, c)),
            forall|a: FloatBits, b: FloatBits| call_requires(*scale, (a, b)),
            forall|q: MotionRequest| call_requires(*motion, (q,)),
            forall|at: Vec3, yaw: FloatBits, pitch: FloatBits|
                call_requires(*view, (at, yaw, pitch)),
            forall|e: u64| call_requires(*entity_at, (e,)),
            forall|p: usize| call_requires(*prop_at, (p,)),
            forall|e: Vec3, yaw: FloatBits, p: Vec3| call_requires(*measure, (e, yaw, p)),
        ensures
            match input {
                None => {
                    &&& *final(self) == with_controls(*old(self), sensitivities@)
                    &&& final(cameras)@ == old(cameras)@
                },
                Some(controls) => {
                    &&& *final(self) == (Camera3DSystem {
                        last_step: Some(now),
                        velocity: final(self).velocity,
                        ..with_controls(*old(self), sensitivities@)
                    })
                    &&& exists|dt: FloatBits, bounds: (Vec3, Vec3), vs: Seq<Vec3>|
                        {
                            &&& is_step_length(*secs, old(self).last_step, now, dt)
                            &&& are_bounds(*plus, *minus, *old(self), bounds)
                            &&& #[trigger] all_moved(
                                *look,
                                *scale,
                                *motion,
                                *view,
                                *final(self),
                                controls,
                                dt,
                                bounds,
                                old(cameras)@,
                                final(cameras)@,
                                vs,
                            )
                            &&& vs[0] == old(self).velocity
                            &&& vs[old(cameras)@.len() as int] == final(self).velocity
                        }
                },
            },
            match input {
                None => r is None,
                Some(controls) => exists|eye: (Vec3, FloatBits)|
                    {
                        &&& #[trigger] is_eye(final(cameras)@, eye)
                        &&& is_interaction(
                            *final(self),
                            controls.interact,
                            eye,
                            *entity_at,
                            *prop_at,
                            *measure,
                            r,
                        )
                    },
            },
    {
        self.move_cameras(
            sensitivities,
            input,
            now,
            cameras,
            plus,
            minus,
            secs,
            look,
            scale,
            motion,
            view,
        );
        match input {
            None => None,
            Some(controls) => {
                let eye: (Vec3, FloatBits) = if cameras.len() > 0 {
                    (cameras[0].position, cameras[0].yaw)
                } else {
                    let z: FloatBits = FloatBits::new(0);
                    ([z, z, z], z)
                };
                assert(is_eye(cameras@, eye));
                self.interact(controls.interact, eye, entity_at, prop_at, measure)
            },
        }
    }
}

/// The pitch never leaves the range short of straight up and straight down.
pub proof fn law_pitch_stays_level(pitch: FloatBits)
    requires
        !pitch.nan(),
    ensures
        (FloatBits { bits: MIN_PITCH_BITS }).at_most(level(pitch)),
        level(pitch).at_most((FloatBits { bits: MAX_PITCH_BITS })),
        level(level(pitch)) == level(pitch),
{
}

/// A walker stays within its bounds in the plane.
pub proof fn law_walker_stays_inside(
    cam: Camera3D,
    input: Controls,
    lo: Vec3,
    hi: Vec3,
    yaw: FloatBits,
    pitch: FloatBits,
    m: Motion,
    now: Camera3D,
)
    requires
        is_placed(false, cam, input, lo, hi, yaw, pitch, m, now),
        lo[0].at_most(hi[0]),
        lo[2].at_most(hi[2]),
        !cam.position[0].nan(),
        !cam.position[2].nan(),
    ensures
        lo[0].at_most(now.position[0]) && now.position[0].at_most(hi[0]),
        lo[2].at_most(now.position[2]) && now.position[2].at_most(hi[2]),
{
}

/// What is interacted with is determined by the measurements.
pub proof fn law_nearest_is_unique(ms: Seq<Option<(FloatBits, FloatBits)>>, k: int, a: int, b: int)
    requires
        is_nearest(ms, k, a),
        is_nearest(ms, k, b),
    ensures
        a == b,
{
    assert(offers(ms[a]) && offers(ms[b]));
}

/// A camera is turned and moved as the input asks. The motion is asked for with each key
/// as it is held: forward, backward, right and left, and a rise only where the camera
/// flies and the jump key is held. It is asked for at the authored speed, times the
/// multiplier while sprinting, along the new yaw and pitch, from where the camera stands,
/// with the velocity that it had. What comes of it is the new velocity, and where the
/// camera flies to; a walker asks physics for that velocity, and for a jump as the key is
/// held.
pub proof fn law_motion_is_asked_for_by_the_keys<
    K: Fn(FloatBits, FloatBits, FloatBits) -> FloatBits,
    X: Fn(FloatBits, FloatBits) -> FloatBits,
    Z: Fn(MotionRequest) -> Motion,
    W: Fn(Vec3, FloatBits, FloatBits) -> Mat4,
>(
    look: K,
    scale: X,
    motion: Z,
    view: W,
    sys: Camera3DSystem,
    cam: Camera3D,
    velocity: Vec3,
    input: Controls,
    dt: FloatBits,
    bounds: (Vec3, Vec3),
    now: Camera3D,
    new_velocity: Vec3,
)
    requires
        is_moved(
            look,
            scale,
            motion,
            view,
            sys,
            (cam, velocity),
            input,
            dt,
            bounds,
            (now, new_velocity),
        ),
    ensures
        exists|q: MotionRequest, m: Motion|
            {
                &&& #[trigger] call_ensures(motion, (q,), m)
                &&& q.forward == input.forward
                &&& q.backward == input.backward
                &&& q.right == input.right
                &&& q.left == input.left
                &&& q.rise == (sys.free_fly && input.jump)
                &&& q.free_fly == sys.free_fly
                &&& q.position == cam.position
                &&& q.velocity == velocity
                &&& q.dt == dt
                &&& q.yaw == now.yaw
                &&& q.pitch == now.pitch
                &&& !input.sprint ==> q.speed == sys.move_speed
                &&& input.sprint ==> call_ensures(
                    scale,
                    (sys.move_speed, sys.sprint_multiplier),
                    q.speed,
                )
                &&& new_velocity == m.velocity
                &&& sys.free_fly ==> now.position == m.flown
                &&& !sys.free_fly ==> now.desired_move == m.velocity
            },
        call_ensures(look, (cam.yaw, input.mouse_dx, sys.mouse_sensitivity), now.yaw),
        now.interact_requested == input.interact,
        now.jump_requested == (!sys.free_fly && input.jump),
        sys.free_fly ==> now.desired_move[0].bits == 0 && now.desired_move[1].bits == 0
            && now.desired_move[2].bits == 0,
        call_ensures(view, (now.position, now.yaw, now.pitch), now.view_matrix),
{
    let found = choose|found: (FloatBits, FloatBits, FloatBits, Motion)| #[trigger]
        moves(
            look,
            scale,
            motion,
            view,
            sys,
            (cam, velocity),
            input,
            dt,
            bounds,
            found,
            (now, new_velocity),
        );
    let (yaw, raw, speed, m) = found;
    let q = request(sys, cam, velocity, input, dt, yaw, level(raw), speed);
    assert(call_ensures(motion, (q,), m));
}

/// The pitch turns with the mouse, and stops at the steepest one either way: it is what
/// the look gives where that lies between, and otherwise the bound on its side.
pub proof fn law_pitch_follows_the_mouse<
    K: Fn(FloatBits, FloatBits, FloatBits) -> FloatBits,
    X: Fn(FloatBits, FloatBits) -> FloatBits,
    Z: Fn(MotionRequest) -> Motion,
    W: Fn(Vec3, FloatBits, FloatBits) -> Mat4,
>(
    look: K,
    scale: X,
    motion: Z,
    view: W,
    sys: Camera3DSystem,
    was: (Camera3D, Vec3),
    input: Controls,
    dt: FloatBits,
    bounds: (Vec3, Vec3),
    now: (Camera3D, Vec3),
    raw: FloatBits,
)
    requires
        is_moved(look, scale, motion, view, sys, was, input, dt, bounds, now),
        forall|r: FloatBits| #[trigger]
            call_ensures(look, (was.0.pitch, input.mouse_dy, sys.mouse_sensitivity), r) ==> r
                == raw,
        !raw.nan(),
    ensures
        // Looking up: the patterns of positive numbers grow with them.
        raw.bits < 0x8000_0000 ==> now.0.pitch.bits == if raw.bits <= 0x3fc7_c82d {
            raw.bits
        } else {
            0x3fc7_c82d
        },
        // Looking down: so do those of negative ones, away from zero.
        raw.bits >= 0x8000_0000 ==> now.0.pitch.bits == if raw.bits <= 0xbfc7_c82d {
            raw.bits
        } else {
            0xbfc7_c82d
        },
{
    let found = choose|found: (FloatBits, FloatBits, FloatBits, Motion)| #[trigger]
        moves(look, scale, motion, view, sys, was, input, dt, bounds, found, now);
    assert(found.1 == raw);
}

/// A walker that stands within its bounds is left where it stands, and one past a bound in
/// the plane is brought back to that bound; its height is physics'.
pub proof fn law_walker_is_brought_back<
    K: Fn(FloatBits, FloatBits, FloatBits) -> FloatBits,
    X: Fn(FloatBits, FloatBits) -> FloatBits,
    Z: Fn(MotionRequest) -> Motion,
    W: Fn(Vec3, FloatBits, FloatBits) -> Mat4,
>(
    look: K,
    scale: X,
    motion: Z,
    view: W,
    sys: Camera3DSystem,
    was: (Camera3D, Vec3),
    input: Controls,
    dt: FloatBits,
    lo: Vec3,
    hi: Vec3,
    now: (Camera3D, Vec3),
    axis: int,
)
    requires
        is_moved(look, scale, motion, view, sys, was, input, dt, (lo, hi), now),
        !sys.free_fly,
        axis == 0 || axis == 2,
        lo[axis].at_most(hi[axis]),
        !was.0.position[axis].nan(),
    ensures
        lo[axis].at_most(was.0.position[axis]) && was.0.position[axis].at_most(hi[axis])
            ==> now.0.position[axis] == was.0.position[axis],
        was.0.position[axis].less(lo[axis]) ==> now.0.position[axis] == lo[axis],
        hi[axis].less(was.0.position[axis]) ==> now.0.position[axis] == hi[axis],
        now.0.position[1] == was.0.position[1],
{
    let found = choose|found: (FloatBits, FloatBits, FloatBits, Motion)| #[trigger]
        moves(look, scale, motion, view, sys, was, input, dt, (lo, hi), found, now);
    assert(moves(look, scale, motion, view, sys, was, input, dt, (lo, hi), found, now));
}

/// A walker's bounds are the authored ones drawn in by its radius on each side.
pub proof fn law_bounds_are_drawn_in<
    P: Fn(FloatBits, FloatBits) -> FloatBits,
    M: Fn(FloatBits, FloatBits) -> FloatBits,
>(plus: P, minus: M, sys: Camera3DSystem, bounds: (Vec3, Vec3), axis: int)
    requires
        are_bounds(plus, minus, sys, bounds),
        axis == 0 || axis == 2,
    ensures
        call_ensures(plus, (sys.bounds_min[axis], sys.player_radius), bounds.0[axis]),
        call_ensures(minus, (sys.bounds_max[axis], sys.player_radius), bounds.1[axis]),
{
}

/// A step is as long as the time since the last one, but never longer than a tenth of a
/// second; the first one has no length.
pub proof fn law_step_length_is_bounded<S: Fn(u64) -> FloatBits>(
    secs: S,
    last: Option<u64>,
    now: u64,
    dt: FloatBits,
    s: FloatBits,
)
    requires
        is_step_length(secs, last, now, dt),
        last matches Some(t) ==> t <= now && forall|r: FloatBits| #[trigger]
            call_ensures(secs, ((now - t) as u64,), r) ==> r == s,
        !s.nan(),
    ensures
        last is None ==> dt.bits == 0,
        last is Some && s.bits <= 0x3dcc_cccd ==> dt == s,
        last is Some && 0x3dcc_cccd < s.bits < 0x8000_0000 ==> dt.bits == 0x3dcc_cccd,
{
}

/// Of targets that are all there, the one that is picked is less than three units away, not
/// where the camera stands, and within sixty degrees of the view; and none that is so, too,
/// is nearer. Where there is any such target, one is picked.
pub proof fn law_picks_the_nearest<
    T,
    A: Fn(T) -> Option<Vec3>,
    M: Fn(Vec3, FloatBits, Vec3) -> (FloatBits, FloatBits),
>(
    at: A,
    measure: M,
    eye: (Vec3, FloatBits),
    targets: Seq<T>,
    r: Option<T>,
    places: Seq<Vec3>,
    found: Seq<(FloatBits, FloatBits)>,
    j: int,
)
    requires
        picks(at, measure, eye, targets, r),
        // Each target stands at its place, and is measured from the eye.
        places.len() == targets.len(),
        found.len() == places.len(),
        forall|i: int, p: Option<Vec3>|
            0 <= i < places.len() && #[trigger] call_ensures(at, (targets[i],), p) ==> p == Some(
                places[i],
            ),
        forall|i: int, m: (FloatBits, FloatBits)|
            0 <= i < places.len() && #[trigger] call_ensures(
                measure,
                (eye.0, eye.1, places[i]),
                m,
            ) ==> m == found[i],
        0 <= j < places.len(),
    ensures
        r is None ==> !(found[j].0.less(FloatBits { bits: 0x4040_0000 }) && (
        FloatBits { bits: 0 }).less(found[j].0) && (FloatBits { bits: 0x3f00_0000 }).less(
            found[j].1,
        )),
        r is Some ==> exists|i: int|
            0 <= i < places.len() && {
                &&& r == Some(targets[i])
                &&& (#[trigger] found[i]).0.less(FloatBits { bits: 0x4040_0000 })
                &&& (FloatBits { bits: 0 }).less(found[i].0)
                &&& (FloatBits { bits: 0x3f00_0000 }).less(found[i].1)
                &&& found[j].0.less(found[i].0) ==> !((FloatBits { bits: 0 }).less(found[j].0) && (
                FloatBits { bits: 0x3f00_0000 }).less(found[j].1))
            },
{
    let ms = choose|ms: Seq<Option<(FloatBits, FloatBits)>>|
        {
            &&& #[trigger] are_measured(at, measure, eye, targets, ms)
            &&& match r {
                Some(t) => exists|i: int| #[trigger]
                    is_nearest(ms, ms.len() as int, i) && t == targets[i],
                None => forall|i: int| 0 <= i < ms.len() ==> !offers(#[trigger] ms[i]),
            }
        };
    assert forall|i: int| 0 <= i < ms.len() implies #[trigger] ms[i] == Some(found[i]) by {
        assert(is_measure(at, measure, eye, targets[i], ms[i]));
    }
    assert(ms[j] == Some(found[j]));
    if r is Some {
        let i = choose|i: int| #[trigger]
            is_nearest(ms, ms.len() as int, i) && r == Some(targets[i]);
        assert(ms[i] == Some(found[i]));
        assert(found[i] == found[i]);
    } else {
        assert(!offers(ms[j]));
    }
}

/// An interaction reaches something only with the key pressed, and then what is picked:
/// of the interactable entities where props are taken apart, and of the interactable props
/// where they are not.
pub proof fn law_interaction_needs_the_key<
    E: Fn(u64) -> Option<Vec3>,
    Q: Fn(usize) -> Option<Vec3>,
    D: Fn(Vec3, FloatBits, Vec3) -> (FloatBits, FloatBits),
>(
    sys: Camera3DSystem,
    pressed: bool,
    eye: (Vec3, FloatBits),
    entity_at: E,
    prop_at: Q,
    measure: D,
    r: Option<Target>,
)
    requires
        is_interaction(sys, pressed, eye, entity_at, prop_at, measure, r),
    ensures
        !pressed ==> r is None,
        r matches Some(Target::Entity(e)) ==> sys.decomposed && picks(
            entity_at,
            measure,
            eye,
            sys.interactable_entities@,
            Some(e),
        ),
        r matches Some(Target::Prop(p)) ==> !sys.decomposed && picks(
            prop_at,
            measure,
            eye,
            sys.interactable_indices@,
            Some(p),
        ),
        pressed && r is None && sys.decomposed ==> picks(
            entity_at,
            measure,
            eye,
            sys.interactable_entities@,
            None,
        ),
        pressed && r is None && !sys.decomposed ==> picks(
            prop_at,
            measure,
            eye,
            sys.interactable_indices@,
            None,
        ),
{
}

/// The interactable props are gathered by their places: each that is flagged, once, in
/// order.
pub proof fn law_flagged_props_are_gathered(flags: Seq<bool>, k: nat, i: int, j: int)
    requires
        k <= flags.len() <= usize::MAX,
    ensures
        0 <= i < k ==> (flags[i] <==> flagged(flags, k).contains(i as usize)),
        0 <= i < j < flagged(flags, k).len() ==> flagged(flags, k)[i] < flagged(flags, k)[j],
        forall|m: int| 0 <= m < flagged(flags, k).len() ==> #[trigger] flagged(flags, k)[m] < k,
    decreases k,
{
    if k > 0 {
        let before = flagged(flags, (k - 1) as nat);
        let now = flagged(flags, k);
        law_flagged_props_are_gathered(flags, (k - 1) as nat, i, j);
        assert forall|m: int| 0 <= m < now.len() implies #[trigger] now[m] < k by {
            if m < before.len() {
                assert(before[m] < k - 1);
            }
        }
        if 0 <= i < k {
            if flags[i] {
                if i == k - 1 {
                    assert(now[now.len() - 1] == i as usize);
                } else {
                    let m = choose|m: int| 0 <= m < before.len() && before[m] == i as usize;
                    assert(now[m] == i as usize);
                }
            } else if now.contains(i as usize) {
                let m = choose|m: int| 0 <= m < now.len() && now[m] == i as usize;
                if m < before.len() {
                    assert(before[m] == i as usize);
                    assert(before[m] < k - 1);
                    assert(before.contains(i as usize));
                }
            }
        }
    }
}

/// Interactions are measured from where the first camera stands, along its yaw; without a
/// camera from the origin, straight ahead.
pub proof fn law_eye_is_the_first_camera(cameras: Seq<Camera3D>, eye: (Vec3, FloatBits))
    requires
        is_eye(cameras, eye),
    ensures
        cameras.len() > 0 ==> eye.0 == cameras[0].position && eye.1 == cameras[0].yaw,
        cameras.len() == 0 ==> eye.0[0].bits == 0 && eye.0[1].bits == 0 && eye.0[2].bits == 0
            && eye.1.bits == 0,
{
}

/// Of several changes of the sensitivity the last holds; without one it stays. Nothing else
/// of the controller changes.
pub proof fn law_last_sensitivity_holds(sys: Camera3DSystem, sensitivities: Seq<FloatBits>)
    ensures
        ({
            let now = with_controls(sys, sensitivities);
            &&& sensitivities.len() > 0 ==> now.mouse_sensitivity
                == sensitivities[sensitivities.len() - 1]
            &&& sensitivities.len() == 0 ==> now.mouse_sensitivity == sys.mouse_sensitivity
            &&& now.free_fly == sys.free_fly
            &&& now.move_speed == sys.move_speed
            &&& now.sprint_multiplier == sys.sprint_multiplier
            &&& now.player_radius == sys.player_radius
            &&& now.bounds_min == sys.bounds_min
            &&& now.bounds_max == sys.bounds_max
            &&& now.last_step == sys.last_step
            &&& now.velocity == sys.velocity
            &&& now.interactable_indices == sys.interactable_indices
            &&& now.interactable_entities == sys.interactable_entities
            &&& now.decomposed == sys.decomposed
        }),
{
}

/// Several cameras move one after the other: each is moved from where it stands itself, from
/// the velocity that the one before it left, and leaves its own to the next.
pub proof fn law_cameras_hand_on_their_velocity<
    K: Fn(FloatBits, FloatBits, FloatBits) -> FloatBits,
    X: Fn(FloatBits, FloatBits) -> FloatBits,
    Z: Fn(MotionRequest) -> Motion,
    W: Fn(Vec3, FloatBits, FloatBits) -> Mat4,
>(
    look: K,
    scale: X,
    motion: Z,
    view: W,
    sys: Camera3DSystem,
    input: Controls,
    dt: FloatBits,
    bounds: (Vec3, Vec3),
    was: Seq<Camera3D>,
    now: Seq<Camera3D>,
    vs: Seq<Vec3>,
    j: int,
)
    requires
        all_moved(look, scale, motion, view, sys, input, dt, bounds, was, now, vs),
        0 <= j < was.len(),
    ensures
        now.len() == was.len(),
        exists|q: MotionRequest, m: Motion|
            {
                &&& #[trigger] call_ensures(motion, (q,), m)
                &&& q.velocity == vs[j]
                &&& q.position == was[j].position
                &&& q.yaw == now[j].yaw
                &&& q.dt == dt
                &&& vs[j + 1] == m.velocity
                &&& sys.free_fly ==> now[j].position == m.flown
                &&& !sys.free_fly ==> now[j].desired_move == m.velocity
            },
        call_ensures(look, (was[j].yaw, input.mouse_dx, sys.mouse_sensitivity), now[j].yaw),
{
    let c = now[j];
    law_motion_is_asked_for_by_the_keys(
        look,
        scale,
        motion,
        view,
        sys,
        was[j],
        vs[j],
        input,
        dt,
        bounds,
        now[j],
        vs[j + 1],
    );
}

/// Of equally near targets the first is picked: no target before the nearest one that can be
/// interacted with is as near.
pub proof fn law_first_of_equally_near(
    ms: Seq<Option<(FloatBits, FloatBits)>>,
    k: int,
    i: int,
    j: int,
    dist: FloatBits,
    dot: FloatBits,
)
    requires
        is_nearest(ms, k, i),
        0 <= j < i,
        ms[j] == Some((dist, dot)),
        dist.less(FloatBits { bits: 0x4040_0000 }),
        (FloatBits { bits: 0 }).less(dist),
        (FloatBits { bits: 0x3f00_0000 }).less(dot),
    ensures
        ms[i] matches Some(nearest) && nearest.0.less(dist),
{
    assert(offers(ms[j]));
}

} // verus!
