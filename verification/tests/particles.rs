use concinnity_gfx::float_bits::{FloatBits, Vec3, Vec4};
use concinnity_gfx::particles::{
    MAX_PARTICLES_PER_EMITTER, ParticleEmitter, ParticleEmitterRecord, ParticleSpawnState,
    build_particle_records,
};
use std::collections::HashMap;

fn bits(x: f32) -> FloatBits {
    FloatBits::new(x.to_bits())
}

fn num(x: FloatBits) -> f32 {
    f32::from_bits(x.bits)
}

fn emitter(direction: [f32; 3], spread_deg: f32) -> ParticleEmitter {
    let white: Vec4 = [bits(1.0); 4];
    ParticleEmitter {
        asset_id: 0,
        visible: true,
        texture: None,
        position: [bits(0.0); 3],
        direction: direction.map(bits),
        spread_deg: bits(spread_deg),
        speed_min: bits(1.0),
        speed_max: bits(2.0),
        lifetime_min: bits(1.0),
        lifetime_max: bits(2.0),
        gravity: [bits(0.0), bits(-1.0), bits(0.0)],
        spawn_rate: bits(32.0),
        max_particles: 64,
        size_start: bits(0.1),
        size_end: bits(0.1),
        color_start: white,
        color_end: white,
    }
}

fn upward() -> ParticleEmitter {
    emitter([0.0, 1.0, 0.0], 15.0)
}

fn build_all(
    emitters: &Vec<ParticleEmitter>,
    slots: &HashMap<u32, usize>,
) -> Vec<ParticleEmitterRecord> {
    let length = |d: Vec3| bits(d.iter().map(|c| num(*c) * num(*c)).sum::<f32>().sqrt());
    let divide = |d: Vec3, len: FloatBits| d.map(|c| bits(num(c) / num(len)));
    let cosine = |deg: FloatBits| bits(num(deg).to_radians().cos());
    build_particle_records(emitters, slots, &length, &divide, &cosine)
}

fn build(e: ParticleEmitter) -> Vec<ParticleEmitterRecord> {
    build_all(&vec![e], &HashMap::new())
}

fn take(s: &mut ParticleSpawnState, dt: f32, rate: f32, max: u32) -> u32 {
    let grow = |acc: FloatBits, rate: FloatBits, dt: FloatBits| {
        bits(num(acc) + num(rate) * num(dt))
    };
    let split = |x: FloatBits| {
        let whole = num(x).floor();
        (whole as u32, bits(num(x) - whole))
    };
    s.take_budget(bits(dt), bits(rate), max, &|n| bits(n as f32), &grow, &split)
}

#[test]
fn invisible_emitter_is_skipped() {
    let mut e = upward();
    e.visible = false;
    assert!(build(e).is_empty());
}

#[test]
fn missing_texture_drops_emitter() {
    let mut e = upward();
    e.texture = Some(999);
    assert!(build(e).is_empty());
}

#[test]
fn emitter_without_texture_uses_fallback_slot() {
    let recs = build(upward());
    assert_eq!(recs.len(), 1);
    assert_eq!(recs[0].texture_slot, 0);
}

#[test]
fn build_normalises_direction() {
    let recs = build(emitter([0.0, 5.0, 0.0], 15.0));
    let d = recs[0].direction.map(num);
    let len = (d[0] * d[0] + d[1] * d[1] + d[2] * d[2]).sqrt();
    assert!((len - 1.0).abs() < 1e-5);
}

#[test]
fn build_falls_back_for_zero_direction() {
    let recs = build(emitter([0.0, 0.0, 0.0], 15.0));
    assert_eq!(recs[0].direction.map(num), [0.0, 1.0, 0.0]);
}

#[test]
fn build_clamps_max_particles_to_engine_cap() {
    let mut e = upward();
    e.max_particles = u32::MAX;
    assert_eq!(build(e)[0].max_particles, MAX_PARTICLES_PER_EMITTER);
}

#[test]
fn build_precomputes_spread_cosine() {
    let recs = build(emitter([0.0, 1.0, 0.0], 0.0));
    assert!((num(recs[0].spread_cos) - 1.0).abs() < 1e-6);
}

#[test]
fn build_lifts_lifetime_max_to_min() {
    let mut e = upward();
    e.lifetime_min = bits(3.0);
    e.lifetime_max = bits(0.1);
    let recs = build(e);
    assert!(num(recs[0].lifetime_max) >= num(recs[0].lifetime_min));
}

#[test]
fn spawn_state_emits_integer_budget() {
    let mut s = ParticleSpawnState::default();
    let b = take(&mut s, 0.5, 10.0, 100);
    assert_eq!(b, 5);
    let b = take(&mut s, 0.5, 10.0, 100);
    assert_eq!(b, 5);
}

#[test]
fn spawn_state_carries_fraction_across_frames() {
    let mut s = ParticleSpawnState::default();
    // 1.5 particles/frame; should alternate 1, 2, 1, 2 in the budget.
    let dt = 1.0;
    let rate = 1.5;
    let cap = 100;
    let mut total = 0;
    for _ in 0..4 {
        total += take(&mut s, dt, rate, cap);
    }
    assert_eq!(total, 6);
}

#[test]
fn spawn_state_zero_rate_returns_zero() {
    let mut s = ParticleSpawnState::default();
    assert_eq!(take(&mut s, 1.0, 0.0, 100), 0);
    assert_eq!(num(s.accumulator), 0.0);
}

#[test]
fn spawn_state_caps_at_pool_capacity() {
    let mut s = ParticleSpawnState::default();
    // 1000 particles/sec, but pool only holds 10 slots: the kernel can
    // never absorb more than `max_particles` in a single dispatch.
    let b = take(&mut s, 1.0, 1000.0, 10);
    assert!(b <= 10);
    assert_eq!(b, 10);
}

#[test]
fn spawn_state_pauses_on_a_step_that_is_not_finite() {
    let mut s = ParticleSpawnState { accumulator: bits(0.75) };
    assert_eq!(take(&mut s, f32::NAN, 10.0, 100), 0);
    assert_eq!(take(&mut s, f32::INFINITY, 10.0, 100), 0);
    assert_eq!(take(&mut s, -1.0, 10.0, 100), 0);
    assert_eq!(num(s.accumulator), 0.75);
}

#[test]
fn records_are_clamped_to_sane_ranges() {
    let mut e = upward();
    e.texture = Some(4);
    e.lifetime_min = bits(-1.0);
    e.speed_min = bits(-2.0);
    e.speed_max = bits(f32::NAN);
    e.color_start = [bits(f32::NAN), bits(0.5), bits(f32::INFINITY), bits(1.0)];
    let recs = build_all(&vec![e], &HashMap::from([(4, 9)]));
    assert_eq!(recs[0].texture_slot, 9);
    assert_eq!(num(recs[0].lifetime_min), 0.001);
    assert_eq!(num(recs[0].speed_min), 0.0);
    assert_eq!(num(recs[0].speed_max), 0.0);
    assert_eq!(recs[0].color_start.map(num), [0.0, 0.5, 0.0, 1.0]);
}

#[test]
fn an_empty_pool_gets_no_record() {
    let mut e = upward();
    e.max_particles = 0;
    assert!(build(e).is_empty());
    let mut one = upward();
    one.max_particles = 1;
    let recs = build_all(&vec![e, one], &HashMap::new());
    assert_eq!(recs.len(), 1);
    assert_eq!(recs[0].max_particles, 1);
}

#[test]
fn params_carry_the_record_and_no_negative_step() {
    let r = build(upward())[0];
    let p = r.params(bits(-0.5), 3, 17);
    assert_eq!(num(p.dt), 0.0);
    assert_eq!((p.spawn_budget, p.random_seed, p.max_particles), (3, 17, 64));
    assert_eq!(p.direction.map(num), [0.0, 1.0, 0.0]);
    assert_eq!(num(r.params(bits(0.25), 0, 0).dt), 0.25);
}

#[test]
fn a_cone_is_no_wider_than_half_a_turn() {
    for (asked, cos) in [(-30.0, 1.0), (60.0, 0.5), (180.0, -1.0), (500.0, -1.0)] {
        let recs = build(emitter([0.0, 1.0, 0.0], asked));
        assert!((num(recs[0].spread_cos) - cos).abs() < 1e-6);
    }
}
