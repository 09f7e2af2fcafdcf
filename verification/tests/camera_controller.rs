use concinnity_gfx::camera_controller::{
    Camera3D, Camera3DSystem, CameraController, MAX_PITCH_BITS, Motion, MotionRequest, Target,
};
use concinnity_gfx::float_bits::{FloatBits, Mat4, Vec3};
use concinnity_gfx::input::Controls;
use concinnity_gfx::internal_systems::{InternalSystem, internal_systems};
use std::time::Duration;

fn bits(x: f32) -> FloatBits {
    FloatBits::new(x.to_bits())
}

fn num(x: FloatBits) -> f32 {
    f32::from_bits(x.bits)
}

fn vec3(v: [f32; 3]) -> Vec3 {
    v.map(bits)
}

fn controller(free_fly: bool, sensitivity: f32) -> CameraController {
    CameraController {
        free_fly,
        move_speed: bits(4.0),
        sprint_multiplier: bits(2.0),
        mouse_sensitivity: bits(sensitivity),
        player_radius: bits(0.5),
        bounds_min: vec3([-10.0; 3]),
        bounds_max: vec3([10.0; 3]),
    }
}

fn camera() -> Camera3D {
    Camera3D {
        position: vec3([0.0; 3]),
        yaw: bits(0.0),
        pitch: bits(0.0),
        desired_move: vec3([0.0; 3]),
        jump_requested: false,
        interact_requested: false,
        view_matrix: [[bits(0.0); 4]; 4],
    }
}

fn idle() -> Controls {
    Controls {
        forward: false,
        backward: false,
        left: false,
        right: false,
        sprint: false,
        interact: false,
        jump: false,
        mouse_dx: bits(0.0),
        mouse_dy: bits(0.0),
    }
}

fn secs(n: u64) -> FloatBits {
    bits(Duration::from_nanos(n).as_secs_f32())
}

fn look(angle: FloatBits, delta: FloatBits, sensitivity: FloatBits) -> FloatBits {
    bits(num(angle) - num(delta) * num(sensitivity))
}

fn plus(a: FloatBits, b: FloatBits) -> FloatBits {
    bits(num(a) + num(b))
}

fn minus(a: FloatBits, b: FloatBits) -> FloatBits {
    bits(num(a) - num(b))
}

fn scale(a: FloatBits, b: FloatBits) -> FloatBits {
    bits(num(a) * num(b))
}

// A movement at full speed along the view, for the step's length.
fn motion(q: MotionRequest) -> Motion {
    let mut v = [0.0f32; 3];
    if q.forward {
        v[2] -= num(q.speed);
    }
    if q.backward {
        v[2] += num(q.speed);
    }
    if q.right {
        v[0] += num(q.speed);
    }
    if q.left {
        v[0] -= num(q.speed);
    }
    if q.rise {
        v[1] += num(q.speed);
    }
    let p = q.position.map(num);
    let dt = num(q.dt);
    Motion {
        velocity: vec3(v),
        flown: vec3([p[0] + v[0] * dt, p[1] + v[1] * dt, p[2] + v[2] * dt]),
    }
}

fn step(
    s: &mut Camera3DSystem,
    sensitivities: &[f32],
    input: Option<Controls>,
    now_ms: u64,
    cameras: &mut Vec<Camera3D>,
) {
    let sens: Vec<FloatBits> = sensitivities.iter().map(|x| bits(*x)).collect();
    let now = now_ms * 1_000_000;
    let reached = s.step(
        &sens,
        input,
        now,
        cameras,
        &plus,
        &minus,
        &secs,
        &look,
        &scale,
        &motion,
        &view,
        &|_| None,
        &|_| None,
        &measure,
    );
    assert_eq!(reached, None);
}

// Stands for the view from a place at two angles.
fn view(position: Vec3, yaw: FloatBits, pitch: FloatBits) -> Mat4 {
    let z = bits(0.0);
    let [x, y, w] = position;
    [[x, y, w, z], [yaw, pitch, z, z], [z; 4], [z; 4]]
}

fn measure(eye: Vec3, yaw: FloatBits, at: Vec3) -> (FloatBits, FloatBits) {
    let (eye, at, yaw) = (eye.map(num), at.map(num), num(yaw));
    let (dx, dz) = (at[0] - eye[0], at[2] - eye[2]);
    let dist = (dx * dx + dz * dz).sqrt();
    (bits(dist), bits((-yaw.sin() * dx - yaw.cos() * dz) / dist))
}

fn origin() -> (Vec3, FloatBits) {
    (vec3([0.0; 3]), bits(0.0))
}

// A Camera3D whose `controller` is set spawns the internal controller.
#[test]
fn controlled_camera_spawns_internal_system() {
    let systems = internal_systems(false, &vec![Some(controller(false, 0.002))], 0);
    let names: Vec<&str> = systems.iter().map(|s| s.name()).collect();
    assert_eq!(names, ["Camera3DSystem"]);
}

// `controller: null` opts out: a cutscene camera gets no controller.
#[test]
fn uncontrolled_camera_has_no_system() {
    assert!(internal_systems(false, &vec![None], 0).is_empty());
}

#[test]
fn the_first_controlled_camera_is_driven() {
    let cameras = vec![None, Some(controller(true, 0.5)), Some(controller(false, 0.25))];
    let systems = internal_systems(true, &cameras, 3);
    let names: Vec<&str> = systems.iter().map(|s| s.name()).collect();
    assert_eq!(names, ["GraphicsSystem", "Camera3DSystem", "AnimationSystem"]);
    match systems[1] {
        InternalSystem::Camera3D { controller } => {
            assert_eq!(num(controller.mouse_sensitivity), 0.5);
        }
        other => panic!("expected the controller, got {:?}", other),
    }
}

// A ControlsCommand pushed mid-tick updates the live mouse sensitivity, so
// the same frame's mouse-look uses the new value (not the init-time one).
// This is the settings-menu sensitivity slider applying without a restart.
#[test]
fn controls_command_updates_sensitivity_live() {
    // Free-fly avoids the PhysicsSystem path; start from a known sensitivity.
    let mut s = Camera3DSystem::new(controller(true, 0.001));
    s.init(0, None, false, Vec::new(), &Vec::new());
    let mut cameras = vec![camera()];

    // GraphicsSystem would send this when the slider is dragged; the camera
    // reads it this tick. A mouse delta in the same frame must rotate by the
    // NEW sensitivity (0.005), not the controller's 0.001.
    let input = Controls { mouse_dx: bits(10.0), ..idle() };
    step(&mut s, &[0.005], Some(input), 16, &mut cameras);

    let yaw = num(cameras[0].yaw);
    assert!(
        (yaw - (-10.0 * 0.005)).abs() < 1.0e-6,
        "yaw {yaw} should reflect the live sensitivity 0.005"
    );
}

// A free-fly camera at the origin facing -Z, with an interactable prop two units
// ahead (within reach and inside the facing cone).
fn interact_system(decomposed: bool) -> Camera3DSystem {
    let mut s = Camera3DSystem::new(controller(true, 0.002));
    s.init(0, None, decomposed, vec![77], &vec![true]);
    s
}

// Flag on: pressing interact rotates the target's Transform 45 degrees and
// leaves the source Prop untouched.
#[test]
fn interact_rotates_transform_when_decomposed() {
    let s = interact_system(true);
    let (mut transform_yaw, mut prop_yaw) = (0.0f32, 0.0f32);
    let place = vec3([0.0, 0.0, -2.0]);
    match s.interact(true, origin(), &|_| Some(place), &|_| Some(place), &measure) {
        Some(Target::Entity(77)) => transform_yaw = (transform_yaw + 45.0) % 360.0,
        Some(Target::Prop(_)) => prop_yaw = (prop_yaw + 45.0) % 360.0,
        other => panic!("expected the interactable entity, got {:?}", other),
    }
    assert_eq!(
        transform_yaw, 45.0,
        "decomposed interact rotates the Transform"
    );
    assert_eq!(
        prop_yaw, 0.0,
        "decomposed interact leaves the Prop untouched"
    );
}

// Flag off: interact rotates the Prop and leaves the Transform shadow alone.
#[test]
fn interact_rotates_prop_when_legacy() {
    let s = interact_system(false);
    let (mut transform_yaw, mut prop_yaw) = (0.0f32, 0.0f32);
    let place = vec3([0.0, 0.0, -2.0]);
    match s.interact(true, origin(), &|_| Some(place), &|_| Some(place), &measure) {
        Some(Target::Prop(0)) => prop_yaw = (prop_yaw + 45.0) % 360.0,
        Some(Target::Entity(_)) => transform_yaw = (transform_yaw + 45.0) % 360.0,
        other => panic!("expected the interactable prop, got {:?}", other),
    }
    assert_eq!(prop_yaw, 45.0, "legacy interact rotates the Prop");
    assert_eq!(
        transform_yaw, 0.0,
        "legacy interact leaves the Transform shadow alone"
    );
}

#[test]
fn an_interaction_reaches_the_nearest_target_in_front() {
    let mut s = Camera3DSystem::new(controller(true, 0.002));
    s.init(0, None, false, Vec::new(), &vec![true, false, true, true, true, true]);
    let places = [
        [0.0, 0.0, -2.5],
        [0.0, 0.0, -0.1], // not interactable
        [0.0, 0.0, 1.0],  // behind
        [0.0, 0.0, -2.0],
        [0.0, 0.0, -2.0], // as near, but later
        [0.0, 0.0, -3.0], // out of reach
    ];
    let prop = |i: usize| Some(vec3(places[i]));
    let reach = |pressed| s.interact(pressed, origin(), &|_| None, &prop, &measure);
    assert_eq!(reach(true), Some(Target::Prop(3)));
    assert_eq!(reach(false), None);
    assert_eq!(s.interact(true, origin(), &|_| None, &|_| None, &measure), None);
}

#[test]
fn a_stored_sensitivity_replaces_the_authored_one() {
    let mut s = Camera3DSystem::new(controller(false, 0.002));
    s.init(5, Some(bits(0.01)), true, vec![3, 4], &vec![true]);
    assert_eq!(num(s.mouse_sensitivity), 0.01);
    assert_eq!(s.last_step, Some(5));
    assert_eq!(s.interactable_entities, vec![3, 4]);
    assert!(s.interactable_indices.is_empty());
}

#[test]
fn without_input_nothing_moves() {
    let mut s = Camera3DSystem::new(controller(false, 0.002));
    let mut cameras = vec![camera()];
    step(&mut s, &[0.25, 0.5], None, 100, &mut cameras);
    assert_eq!(num(s.mouse_sensitivity), 0.5);
    assert_eq!(s.last_step, None);
    assert_eq!(num(cameras[0].yaw), 0.0);
}

#[test]
fn a_walker_asks_physics_to_move_it() {
    let mut s = Camera3DSystem::new(controller(false, 0.002));
    s.init(0, None, false, Vec::new(), &Vec::new());
    let mut cameras = vec![camera()];
    cameras[0].position = vec3([50.0, 3.0, -50.0]);
    let input = Controls { forward: true, sprint: true, jump: true, interact: true, ..idle() };
    step(&mut s, &[], Some(input), 50, &mut cameras);
    assert_eq!(cameras[0].position.map(num), [9.5, 3.0, -9.5]);
    assert_eq!(cameras[0].desired_move.map(num), [0.0, 0.0, -8.0]);
    assert!(cameras[0].jump_requested);
    assert!(cameras[0].interact_requested);
}

#[test]
fn a_flyer_moves_itself() {
    let mut s = Camera3DSystem::new(controller(true, 0.002));
    s.init(0, None, false, Vec::new(), &Vec::new());
    let mut cameras = vec![camera()];
    let input = Controls { forward: true, jump: true, ..idle() };
    // A long frame counts as a tenth of a second.
    step(&mut s, &[], Some(input), 5000, &mut cameras);
    assert_eq!(cameras[0].position.map(num), [0.0, 0.4, -0.4]);
    assert_eq!(cameras[0].desired_move.map(num), [0.0; 3]);
    assert!(!cameras[0].jump_requested);
    assert_eq!(s.velocity.map(num), [0.0, 4.0, -4.0]);
    s.reset_velocity();
    assert_eq!(s.velocity.map(num), [0.0; 3]);
}

#[test]
fn the_pitch_stops_short_of_straight_up() {
    let mut s = Camera3DSystem::new(controller(true, 1.0));
    s.init(0, None, false, Vec::new(), &Vec::new());
    let mut cameras = vec![camera()];
    let input = Controls { mouse_dy: bits(-100.0), ..idle() };
    step(&mut s, &[], Some(input), 16, &mut cameras);
    let steepest = std::f32::consts::FRAC_PI_2 - 0.01;
    assert_eq!(num(cameras[0].pitch), steepest);
    assert_eq!(f32::from_bits(MAX_PITCH_BITS), steepest);
    let input = Controls { mouse_dy: bits(100.0), ..idle() };
    step(&mut s, &[], Some(input), 32, &mut cameras);
    assert_eq!(num(cameras[0].pitch), -std::f32::consts::FRAC_PI_2 + 0.01);
}

#[test]
fn a_walker_keeps_its_radius_from_the_bounds() {
    let mut c = controller(false, 0.002);
    c.bounds_max = vec3([20.0, 4.0, 6.0]);
    let (lo, hi) = Camera3DSystem::new(c).walker_bounds(&plus, &minus);
    assert_eq!((num(lo[0]), num(lo[2])), (-9.5, -9.5));
    assert_eq!((num(hi[0]), num(hi[2])), (19.5, 5.5));
}

#[test]
fn bounds_without_room_matter_only_to_a_camera_that_walks() {
    let mut c = controller(false, 0.002);
    c.player_radius = bits(11.0);
    let mut s = Camera3DSystem::new(c);
    step(&mut s, &[0.5], None, 10, &mut vec![camera()]);
    assert_eq!(num(s.mouse_sensitivity), 0.5);
    step(&mut s, &[], Some(idle()), 10, &mut vec![]);
    assert_eq!(s.last_step, Some(10_000_000));
}

#[test]
fn a_step_writes_the_view_from_where_it_leaves_the_camera() {
    let mut s = Camera3DSystem::new(controller(true, 0.5));
    s.init(0, None, false, Vec::new(), &Vec::new());
    let mut cameras = vec![camera(), camera()];
    let input = Controls { forward: true, mouse_dx: bits(-1.0), ..idle() };
    step(&mut s, &[], Some(input), 100, &mut cameras);
    for c in &cameras {
        assert_eq!(c.view_matrix, view(c.position, c.yaw, c.pitch));
    }
    assert_eq!(num(cameras[0].view_matrix[1][0]), 0.5);
    assert_eq!(num(cameras[0].view_matrix[0][2]), -0.4);
}

#[test]
fn an_interaction_is_measured_from_the_first_camera_after_its_move() {
    let mut s = Camera3DSystem::new(controller(true, 0.002));
    s.init(0, None, false, Vec::new(), &vec![true]);
    // Out of reach from the origin, but not after a tenth of a second at eight a second.
    let prop = |_| Some(vec3([0.0, 0.0, -3.5]));
    let press = Controls { interact: true, ..idle() };
    let mut go = |input: Controls, now: u64, cameras: &mut Vec<Camera3D>| {
        s.step(
            &Vec::new(),
            Some(input),
            now,
            cameras,
            &plus,
            &minus,
            &secs,
            &look,
            &scale,
            &motion,
            &view,
            &|_| None,
            &prop,
            &measure,
        )
    };
    let mut cameras = vec![camera()];
    assert_eq!(go(press, 1, &mut cameras), None);
    let run = Controls { forward: true, sprint: true, ..press };
    assert_eq!(go(run, 200_000_000, &mut cameras), Some(Target::Prop(0)));
    assert_eq!(go(idle(), 300_000_000, &mut cameras), None);
    // Without a camera the origin is the eye.
    assert_eq!(go(press, 400_000_000, &mut Vec::new()), None);
}
