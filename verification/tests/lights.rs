use concinnity_gfx::float_bits::{FloatBits, Vec3};
use concinnity_gfx::lights::{DirectionalLight, LightUniforms, PointLight, build_light_uniforms};

const MAX_DIRECTIONAL_LIGHTS: usize = 4;
const MAX_POINT_LIGHTS: usize = 16;

fn bits(x: f32) -> FloatBits {
    FloatBits::new(x.to_bits())
}

fn num(x: FloatBits) -> f32 {
    f32::from_bits(x.bits)
}

fn vec3(v: [f32; 3]) -> Vec3 {
    v.map(bits)
}

fn dir(direction: [f32; 3], color: [f32; 3], intensity: f32) -> DirectionalLight {
    DirectionalLight {
        direction: vec3(direction),
        color: vec3(color),
        intensity: bits(intensity),
    }
}

fn pt(position: [f32; 3], color: [f32; 3], intensity: f32, range: f32) -> PointLight {
    PointLight {
        position: vec3(position),
        color: vec3(color),
        intensity: bits(intensity),
        range: bits(range),
    }
}

fn fallback() -> LightUniforms {
    LightUniforms {
        directional: vec![dir([-0.3, 0.85, 0.4], [1.0; 3], 1.0)],
        point: Vec::new(),
        num_directional: 1,
        num_point: 0,
        ambient_intensity: bits(1.0),
    }
}

fn build(d: Vec<DirectionalLight>, p: Vec<PointLight>, ambient: f32) -> LightUniforms {
    build_light_uniforms(
        &d,
        &p,
        bits(ambient),
        fallback(),
        MAX_DIRECTIONAL_LIGHTS,
        MAX_POINT_LIGHTS,
    )
}

#[test]
fn empty_inputs_return_default() {
    let u = build(vec![], vec![], 1.0);
    assert_eq!(u.num_directional, fallback().num_directional);
    assert_eq!(u.num_point, fallback().num_point);
}

#[test]
fn ambient_intensity_carried_in_both_branches() {
    // Empty (DEFAULT) branch and the populated branch both honour the
    // authored multiplier.
    let empty = build(vec![], vec![], 2.5);
    assert!((num(empty.ambient_intensity) - 2.5).abs() < 1e-6);
    let populated = build(vec![dir([-0.3, 0.85, 0.4], [1.0; 3], 1.0)], vec![], 3.0);
    assert!((num(populated.ambient_intensity) - 3.0).abs() < 1e-6);
}

#[test]
fn single_directional_light_fields_mapped() {
    let u = build(vec![dir([-0.3, 0.85, 0.4], [1.0, 0.95, 0.8], 1.5)], vec![], 1.0);
    assert_eq!(u.num_directional, 1);
    assert_eq!(u.num_point, 0);
    assert_eq!(u.directional[0].direction.map(num), [-0.3, 0.85, 0.4]);
    assert_eq!(u.directional[0].color.map(num), [1.0, 0.95, 0.8]);
    assert!((num(u.directional[0].intensity) - 1.5).abs() < 1e-6);
}

#[test]
fn single_point_light_fields_mapped() {
    let u = build(vec![], vec![pt([2.0, 3.0, 4.0], [1.0, 0.8, 0.5], 8.0, 6.0)], 1.0);
    assert_eq!(u.num_directional, 0);
    assert_eq!(u.num_point, 1);
    assert_eq!(u.point[0].position.map(num), [2.0, 3.0, 4.0]);
    assert_eq!(u.point[0].color.map(num), [1.0, 0.8, 0.5]);
    assert!((num(u.point[0].intensity) - 8.0).abs() < 1e-6);
    assert!((num(u.point[0].range) - 6.0).abs() < 1e-6);
}

#[test]
fn excess_directional_lights_clamped_to_max() {
    let lights: Vec<DirectionalLight> = (0..MAX_DIRECTIONAL_LIGHTS + 2)
        .map(|i| dir([i as f32, 0.0, 0.0], [1.0; 3], 1.0))
        .collect();
    let u = build(lights, vec![], 1.0);
    assert_eq!(u.num_directional, MAX_DIRECTIONAL_LIGHTS as i32);
}

#[test]
fn excess_point_lights_clamped_to_max() {
    let lights: Vec<PointLight> = (0..MAX_POINT_LIGHTS + 2)
        .map(|i| pt([i as f32, 0.0, 0.0], [1.0; 3], 1.0, 5.0))
        .collect();
    let u = build(vec![], lights, 1.0);
    assert_eq!(u.num_point, MAX_POINT_LIGHTS as i32);
}

#[test]
fn unused_light_slots_are_zero() {
    let u = build(vec![dir([1.0, 2.0, 3.0], [1.0; 3], 1.0)], vec![], 1.0);
    assert_eq!(u.directional.len(), MAX_DIRECTIONAL_LIGHTS);
    assert_eq!(u.point.len(), MAX_POINT_LIGHTS);
    assert_eq!(num(u.directional[1].intensity), 0.0);
    assert_eq!(u.point[0].position.map(num), [0.0; 3]);
    assert_eq!(num(u.point[15].range), 0.0);
}
