//! Resolving particle emitters into the records that backends consume, and metering
//! how many particles each may spawn.

use crate::float_bits::{FloatBits, Vec3, Vec4, one, zero};
use crate::tables::{AssetId, lookup};
use std::collections::HashMap;
use vstd::prelude::*;

verus! {

/// The most slots of an emitter's pool.
pub const MAX_PARTICLES_PER_EMITTER: u32 = 65_536;

/// The pattern of one thousandth, the shortest lifetime in seconds.
pub const MIN_LIFETIME_BITS: u32 = 0x3a83_126f;

/// The pattern of one millionth, the length under which a direction counts as none.
pub const MIN_DIRECTION_BITS: u32 = 0x3586_37bd;

/// The pattern of half a turn in degrees, the widest half-angle of a cone.
pub const MAX_SPREAD_BITS: u32 = 0x4334_0000;

/// A declared emitter. Particles leave it within `spread_deg` degrees of its direction.
#[derive(Debug, Clone, Copy)]
pub struct ParticleEmitter {
    pub asset_id: AssetId,
    pub visible: bool,
    pub texture: Option<AssetId>,
    pub position: Vec3,
    pub direction: Vec3,
    pub spread_deg: FloatBits,
    pub speed_min: FloatBits,
    pub speed_max: FloatBits,
    pub lifetime_min: FloatBits,
    pub lifetime_max: FloatBits,
    pub gravity: Vec3,
    pub spawn_rate: FloatBits,
    pub max_particles: u32,
    pub size_start: FloatBits,
    pub size_end: FloatBits,
    pub color_start: Vec4,
    pub color_end: Vec4,
}

/// A resolved emitter. `spread_cos` is the cosine of the cone's half-angle.
#[derive(Debug, Clone, Copy)]
pub struct ParticleEmitterRecord {
    pub texture_slot: usize,
    pub position: Vec3,
    pub direction: Vec3,
    pub spread_cos: FloatBits,
    pub speed_min: FloatBits,
    pub speed_max: FloatBits,
    pub lifetime_min: FloatBits,
    pub lifetime_max: FloatBits,
    pub gravity: Vec3,
    pub spawn_rate: FloatBits,
    pub max_particles: u32,
    pub size_start: FloatBits,
    pub size_end: FloatBits,
    pub color_start: Vec4,
    pub color_end: Vec4,
}

/// The uniform of one frame.
#[derive(Debug, Clone, Copy)]
pub struct ParticleParams {
    pub position: Vec3,
    pub spread_cos: FloatBits,
    pub direction: Vec3,
    pub speed_min: FloatBits,
    pub gravity: Vec3,
    pub speed_max: FloatBits,
    pub color_start: Vec4,
    pub color_end: Vec4,
    pub lifetime_min: FloatBits,
    pub lifetime_max: FloatBits,
    pub size_start: FloatBits,
    pub size_end: FloatBits,
    pub dt: FloatBits,
    pub spawn_budget: u32,
    pub random_seed: u32,
    pub max_particles: u32,
}

/// A pool size within the limit.
pub open spec fn pool_slots(asked: u32) -> u32 {
    if asked > MAX_PARTICLES_PER_EMITTER {
        MAX_PARTICLES_PER_EMITTER
    } else {
        asked
    }
}

/// The texture slot of an emitter: zero without a texture, none where its texture is
/// not declared.
pub open spec fn emitter_slot(e: ParticleEmitter, slots: Map<u32, usize>) -> Option<usize> {
    match e.texture {
        None => Some(0),
        Some(t) => if slots.dom().contains(t) {
            Some(slots[t])
        } else {
            None
        },
    }
}

/// A length makes a direction usable: it is finite and not below the least.
pub open spec fn usable(len: FloatBits) -> bool {
    len.finite() && !len.less(FloatBits { bits: MIN_DIRECTION_BITS })
}

/// The emission direction: the authored one divided by its length where that is usable,
/// and up otherwise.
pub open spec fn is_direction<L: Fn(Vec3) -> FloatBits, D: Fn(Vec3, FloatBits) -> Vec3>(
    length: L,
    divide: D,
    direction: Vec3,
    d: Vec3,
) -> bool {
    exists|len: FloatBits|
        {
            &&& #[trigger] call_ensures(length, (direction,), len)
            &&& if usable(len) {
                call_ensures(divide, (direction, len), d)
            } else {
                d[0] == zero() && d[1] == one() && d[2] == zero()
            }
        }
}

/// The half-angle of a cone, between none and half a turn.
pub open spec fn spread(spread_deg: FloatBits) -> FloatBits {
    spread_deg.clamped(zero(), FloatBits { bits: MAX_SPREAD_BITS })
}

/// A colour without components that are not finite, which become zero.
pub open spec fn is_sane(c: Vec4, r: Vec4) -> bool {
    forall|i: int|
        0 <= i < 4 ==> #[trigger] r[i] == if c[i].finite() {
            c[i]
        } else {
            zero()
        }
}

/// Whether a record resolves an emitter. `length` gives the length of a direction,
/// `divide` divides one by it, and `cosine` gives the cosine of an angle in degrees.
pub open spec fn is_record<
    L: Fn(Vec3) -> FloatBits,
    D: Fn(Vec3, FloatBits) -> Vec3,
    S: Fn(FloatBits) -> FloatBits,
>(
    length: L,
    divide: D,
    cosine: S,
    e: ParticleEmitter,
    slot: usize,
    r: ParticleEmitterRecord,
) -> bool {
    let least_life = FloatBits { bits: MIN_LIFETIME_BITS };
    &&& r.texture_slot == slot
    &&& r.position == e.position
    &&& is_direction(length, divide, e.direction, r.direction)
    &&& call_ensures(cosine, (spread(e.spread_deg),), r.spread_cos)
    &&& r.speed_min == e.speed_min.greater(zero())
    &&& r.speed_max == e.speed_max.greater(r.speed_min)
    &&& r.lifetime_min == e.lifetime_min.greater(least_life)
    &&& r.lifetime_max == e.lifetime_max.greater(r.lifetime_min)
    &&& r.gravity == e.gravity
    &&& r.spawn_rate == e.spawn_rate.greater(zero())
    &&& r.max_particles == pool_slots(e.max_particles)
    &&& r.size_start == e.size_start.greater(zero())
    &&& r.size_end == e.size_end.greater(zero())
    &&& is_sane(e.color_start, r.color_start)
    &&& is_sane(e.color_end, r.color_end)
}

/// Whether an emitter gets a record: it is visible, its pool is not empty, and its
/// texture, if any, is declared.
pub open spec fn emits(e: ParticleEmitter, slots: Map<u32, usize>) -> bool {
    e.visible && e.max_particles > 0 && emitter_slot(e, slots) is Some
}

/// The emitters among the first `k` that get a record.
pub open spec fn emitting(emitters: Seq<ParticleEmitter>, slots: Map<u32, usize>, k: nat) -> Seq<
    int,
>
    decreases k,
{
    if k == 0 {
        Seq::empty()
    } else {
        let before = emitting(emitters, slots, (k - 1) as nat);
        if emits(emitters[k - 1], slots) {
            before.push(k - 1)
        } else {
            before
        }
    }
}

fn sanitised_color(c: Vec4) -> (r: Vec4)
    ensures
        is_sane(c, r),
{
    let z: FloatBits = FloatBits::new(0);
    let a: FloatBits = if c[0].is_finite() {
        c[0]
    } else {
        z
    };
    let b: FloatBits = if c[1].is_finite() {
        c[1]
    } else {
        z
    };
    let g: FloatBits = if c[2].is_finite() {
        c[2]
    } else {
        z
    };
    let d: FloatBits = if c[3].is_finite() {
        c[3]
    } else {
        z
    };
    [a, b, g, d]
}

fn emission_direction<L: Fn(Vec3) -> FloatBits, D: Fn(Vec3, FloatBits) -> Vec3>(
    direction: Vec3,
    length: &L,
    divide: &D,
) -> (r: Vec3)
    requires
        forall|d: Vec3| call_requires(*length, (d,)),
        forall|d: Vec3, len: FloatBits| call_requires(*divide, (d, len)),
    ensures
        is_direction(*length, *divide, direction, r),
{
    let len: FloatBits = length(direction);
    assert(call_ensures(*length, (direction,), len));
    if len.is_finite() && !len.lt(FloatBits::new(MIN_DIRECTION_BITS)) {
        divide(direction, len)
    } else {
        let z: FloatBits = FloatBits::new(0);
        [z, FloatBits::new(0x3f80_0000), z]
    }
}

fn resolve<
    L: Fn(Vec3) -> FloatBits,
    D: Fn(Vec3, FloatBits) -> Vec3,
    S: Fn(FloatBits) -> FloatBits,
>(e: &ParticleEmitter, slot: usize, length: &L, divide: &D, cosine: &S) -> (r:
    ParticleEmitterRecord)
    requires
        forall|d: Vec3| call_requires(*length, (d,)),
        forall|d: Vec3, len: FloatBits| call_requires(*divide, (d, len)),
        forall|a: FloatBits| call_requires(*cosine, (a,)),
    ensures
        is_record(*length, *divide, *cosine, *e, slot, r),
{
    let z: FloatBits = FloatBits::new(0);
    let speed_min: FloatBits = e.speed_min.max(z);
    let lifetime_min: FloatBits = e.lifetime_min.max(FloatBits::new(MIN_LIFETIME_BITS));
    let max_particles: u32 = if e.max_particles > MAX_PARTICLES_PER_EMITTER {
        MAX_PARTICLES_PER_EMITTER
    } else {
        e.max_particles
    };
    ParticleEmitterRecord {
        texture_slot: slot,
        position: e.position,
        direction: emission_direction(e.direction, length, divide),
        spread_cos: cosine(
            e.spread_deg.clamp(FloatBits::new(0), FloatBits::new(MAX_SPREAD_BITS)),
        ),
        speed_min,
        speed_max: e.speed_max.max(speed_min),
        lifetime_min,
        lifetime_max: e.lifetime_max.max(lifetime_min),
        gravity: e.gravity,
        spawn_rate: e.spawn_rate.max(z),
        max_particles,
        size_start: e.size_start.max(z),
        size_end: e.size_end.max(z),
        color_start: sanitised_color(e.color_start),
        color_end: sanitised_color(e.color_end),
    }
}

/// Resolve emitters into records. Invisible emitters, those whose pool would be empty
/// and those whose texture is not declared get none. `length` gives the length of a direction, `divide` divides one by
/// it, and `cosine` gives the cosine of an angle in degrees.
pub fn build_particle_records<
    L: Fn(Vec3) -> FloatBits,
    D: Fn(Vec3, FloatBits) -> Vec3,
    S: Fn(FloatBits) -> FloatBits,
>(
    emitters: &Vec<ParticleEmitter>,
    texture_name_to_slot: &HashMap<u32, usize>,
    length: &L,
    divide: &D,
    cosine: &S,
) -> (r: Vec<ParticleEmitterRecord>)
    requires
        forall|d: Vec3| call_requires(*length, (d,)),
        forall|d: Vec3, len: FloatBits| call_requires(*divide, (d, len)),
        forall|a: FloatBits| call_requires(*cosine, (a,)),
    ensures
        ({
            let picked = emitting(emitters@, texture_name_to_slot@, emitters@.len());
            &&& r@.len() == picked.len()
            &&& forall|i: int|
                0 <= i < picked.len() ==> is_record(
                    *length,
                    *divide,
                    *cosine,
                    emitters@[picked[i]],
                    emitter_slot(emitters@[picked[i]], texture_name_to_slot@)->0,
                    #[trigger] r@[i],
                )
        }),
{
    let ghost slots = texture_name_to_slot@;
    let mut out: Vec<ParticleEmitterRecord> = Vec::new();
    let mut k: usize = 0;
    while k < emitters.len()
        invariant
            k <= emitters@.len(),
            slots == texture_name_to_slot@,
            forall|d: Vec3| call_requires(*length, (d,)),
            forall|d: Vec3, len: FloatBits| call_requires(*divide, (d, len)),
            forall|a: FloatBits| call_requires(*cosine, (a,)),
            out@.len() == emitting(emitters@, slots, k as nat).len(),
            forall|i: int|
                0 <= i < out@.len() ==> is_record(
                    *length,
                    *divide,
                    *cosine,
                    emitters@[emitting(emitters@, slots, k as nat)[i]],
                    emitter_slot(emitters@[emitting(emitters@, slots, k as nat)[i]], slots)->0,
                    #[trigger] out@[i],
                ),
        decreases emitters@.len() - k,
    {
        let e: ParticleEmitter = emitters[k];
        let slot: Option<usize> = match e.texture {
            None => Some(0),
            Some(t) => match lookup(texture_name_to_slot, t) {
                Some(s) => Some(*s),
                None => None,
            },
        };
        let ghost was = out@;
        match slot {
            Some(slot) => {
                if e.visible && e.max_particles > 0 {
                    out.push(resolve(&e, slot, length, divide, cosine));
                }
            },
            None => {},
        }
        proof {
            let picked = emitting(emitters@, slots, (k + 1) as nat);
            assert forall|i: int| 0 <= i < out@.len() implies is_record(
                *length,
                *divide,
                *cosine,
                emitters@[picked[i]],
                emitter_slot(emitters@[picked[i]], slots)->0,
                #[trigger] out@[i],
            ) by {
                if i < was.len() {
                    assert(out@[i] == was[i]);
                }
            }
        }
        k = k + 1;
    }
    out
}

impl ParticleEmitterRecord {
    /// The uniform of a frame; a negative step is none.
    pub fn params(&self, dt: FloatBits, spawn_budget: u32, random_seed: u32) -> (r: ParticleParams)
        ensures
            r == (ParticleParams {
                position: self.position,
                spread_cos: self.spread_cos,
                direction: self.direction,
                speed_min: self.speed_min,
                gravity: self.gravity,
                speed_max: self.speed_max,
                color_start: self.color_start,
                color_end: self.color_end,
                lifetime_min: self.lifetime_min,
                lifetime_max: self.lifetime_max,
                size_start: self.size_start,
                size_end: self.size_end,
                dt: dt.greater(zero()),
                spawn_budget,
                random_seed,
                max_particles: self.max_particles,
            }),
    {
        ParticleParams {
            position: self.position,
            spread_cos: self.spread_cos,
            direction: self.direction,
            speed_min: self.speed_min,
            gravity: self.gravity,
            speed_max: self.speed_max,
            color_start: self.color_start,
            color_end: self.color_end,
            lifetime_min: self.lifetime_min,
            lifetime_max: self.lifetime_max,
            size_start: self.size_start,
            size_end: self.size_end,
            dt: dt.max(FloatBits::new(0)),
            spawn_budget,
            random_seed,
            max_particles: self.max_particles,
        }
    }
}

/// The fraction of a particle that an emitter still owes.
#[derive(Debug, Clone, Copy, PartialEq, Eq, Structural)]
pub struct ParticleSpawnState {
    pub accumulator: FloatBits,
}

impl Default for ParticleSpawnState {
    fn default() -> (r: ParticleSpawnState)
        ensures
            r.accumulator == zero(),
    {
        ParticleSpawnState { accumulator: FloatBits::new(0) }
    }
}

/// An emitter is paused: its rate or the step is zero or below, or the step is not
/// finite.
pub open spec fn paused(dt: FloatBits, spawn_rate: FloatBits) -> bool {
    spawn_rate.at_most(zero()) || dt.at_most(zero()) || !dt.finite()
}

/// What is owed, capped at what the pool can take in one step.
pub open spec fn owed(sum: FloatBits, cap: FloatBits) -> FloatBits {
    if cap.less(sum) {
        cap
    } else {
        sum
    }
}

impl ParticleSpawnState {
    /// Add a step's particles and take the whole ones off, never more than the pool
    /// holds. `count` gives the number of a count, `grow` adds the step's particles to
    /// what is owed, and `split` parts a number into its whole count and the rest. A
    /// paused emitter takes none and owes what it owed.
    pub fn take_budget<
        N: Fn(u32) -> FloatBits,
        G: Fn(FloatBits, FloatBits, FloatBits) -> FloatBits,
        S: Fn(FloatBits) -> (u32, FloatBits),
    >(
        &mut self,
        dt: FloatBits,
        spawn_rate: FloatBits,
        max_particles: u32,
        count: &N,
        grow: &G,
        split: &S,
    ) -> (r: u32)
        requires
            forall|n: u32| call_requires(*count, (n,)),
            forall|a: FloatBits, b: FloatBits, c: FloatBits| call_requires(*grow, (a, b, c)),
            forall|a: FloatBits| call_requires(*split, (a,)),
        ensures
            if paused(dt, spawn_rate) {
                r == 0 && *final(self) == *old(self)
            } else {
                exists|sum: FloatBits, cap: FloatBits|
                    {
                        &&& #[trigger] call_ensures(
                            *grow,
                            (old(self).accumulator, spawn_rate, dt),
                            sum,
                        )
                        &&& #[trigger] call_ensures(*count, (max_particles,), cap)
                        &&& call_ensures(*split, (owed(sum, cap),), (r, final(self).accumulator))
                    }
            },
    {
        let z: FloatBits = FloatBits::new(0);
        if spawn_rate.le(z) || dt.le(z) || !dt.is_finite() {
            return 0;
        }
        let sum: FloatBits = grow(self.accumulator, spawn_rate, dt);
        let cap: FloatBits = count(max_particles);
        let taken: FloatBits = if cap.lt(sum) {
            cap
        } else {
            sum
        };
        assert(call_ensures(*grow, (old(self).accumulator, spawn_rate, dt), sum));
        assert(call_ensures(*count, (max_particles,), cap));
        assert(taken == owed(sum, cap));
        let (whole, rest): (u32, FloatBits) = split(taken);
        self.accumulator = rest;
        whole
    }
}

/// A record's bounds are in order, its pool is never empty, and its colours are finite.
pub proof fn law_records_are_sane<
    L: Fn(Vec3) -> FloatBits,
    D: Fn(Vec3, FloatBits) -> Vec3,
    S: Fn(FloatBits) -> FloatBits,
>(
    length: L,
    divide: D,
    cosine: S,
    e: ParticleEmitter,
    slots: Map<u32, usize>,
    r: ParticleEmitterRecord,
)
    requires
        emits(e, slots),
        is_record(length, divide, cosine, e, emitter_slot(e, slots)->0, r),
    ensures
        r.speed_min.at_most(r.speed_max),
        r.lifetime_min.at_most(r.lifetime_max),
        zero().at_most(r.speed_min),
        zero().less(r.lifetime_min),
        zero().at_most(r.spawn_rate),
        1 <= r.max_particles <= MAX_PARTICLES_PER_EMITTER,
        forall|i: int| 0 <= i < 4 ==> (#[trigger] r.color_start[i]).finite(),
        forall|i: int| 0 <= i < 4 ==> (#[trigger] r.color_end[i]).finite(),
{
}

/// An emitter whose values are in order is carried as it was authored: where a least value
/// is not negative, a greatest one not below the least, and a colour finite, the record
/// holds that very value. The authored cone is measured as it is where it is no wider than
/// half a turn.
pub proof fn law_sane_emitter_is_carried<
    L: Fn(Vec3) -> FloatBits,
    D: Fn(Vec3, FloatBits) -> Vec3,
    S: Fn(FloatBits) -> FloatBits,
>(
    length: L,
    divide: D,
    cosine: S,
    e: ParticleEmitter,
    slot: usize,
    r: ParticleEmitterRecord,
    c: int,
)
    requires
        is_record(length, divide, cosine, e, slot, r),
        0 <= c < 4,
        // Numbers that are not negative.
        e.speed_min.bits <= 0x7f80_0000,
        e.lifetime_min.bits <= 0x7f80_0000,
        e.spawn_rate.bits <= 0x7f80_0000,
        e.size_start.bits <= 0x7f80_0000,
        e.size_end.bits <= 0x7f80_0000,
        e.spread_deg.bits <= 0x4334_0000,
        e.speed_min.at_most(e.speed_max),
        e.lifetime_min.at_most(e.lifetime_max),
        e.lifetime_min.bits >= 0x3a83_126f,
    ensures
        r.texture_slot == slot,
        r.position == e.position,
        r.gravity == e.gravity,
        r.speed_min == e.speed_min,
        r.speed_max.rank() == e.speed_max.rank(),
        r.lifetime_min == e.lifetime_min,
        r.lifetime_max.rank() == e.lifetime_max.rank(),
        r.spawn_rate == e.spawn_rate,
        r.size_start == e.size_start,
        r.size_end == e.size_end,
        e.color_start[c].finite() ==> r.color_start[c] == e.color_start[c],
        e.color_end[c].finite() ==> r.color_end[c] == e.color_end[c],
        !e.color_start[c].finite() ==> r.color_start[c].bits == 0,
        !e.color_end[c].finite() ==> r.color_end[c].bits == 0,
        e.max_particles <= 65_536 ==> r.max_particles == e.max_particles,
        e.max_particles > 65_536 ==> r.max_particles == 65_536,
        call_ensures(cosine, (e.spread_deg,), r.spread_cos),
{
}

/// A value that is out of order is brought back to the nearest bound: nothing for a
/// negative one, the least lifetime for a shorter one, the least for a greatest below it,
/// and for a cone nothing or half a turn.
pub proof fn law_emitter_is_brought_into_order<
    L: Fn(Vec3) -> FloatBits,
    D: Fn(Vec3, FloatBits) -> Vec3,
    S: Fn(FloatBits) -> FloatBits,
>(
    length: L,
    divide: D,
    cosine: S,
    e: ParticleEmitter,
    slot: usize,
    r: ParticleEmitterRecord,
)
    requires
        is_record(length, divide, cosine, e, slot, r),
    ensures
        e.speed_min.bits > 0x8000_0000 ==> r.speed_min.bits == 0,
        e.spawn_rate.bits > 0x8000_0000 ==> r.spawn_rate.bits == 0,
        e.size_start.bits > 0x8000_0000 ==> r.size_start.bits == 0,
        e.size_end.bits > 0x8000_0000 ==> r.size_end.bits == 0,
        e.lifetime_min.less(FloatBits { bits: 0x3a83_126f }) ==> r.lifetime_min.bits
            == 0x3a83_126f,
        e.speed_max.less(r.speed_min) ==> r.speed_max == r.speed_min,
        e.lifetime_max.less(r.lifetime_min) ==> r.lifetime_max == r.lifetime_min,
        0x4334_0000 < e.spread_deg.bits <= 0x7f80_0000 ==> call_ensures(
            cosine,
            (FloatBits { bits: 0x4334_0000 },),
            r.spread_cos,
        ),
        0x8000_0000 < e.spread_deg.bits <= 0xff80_0000 ==> call_ensures(
            cosine,
            (FloatBits { bits: 0 },),
            r.spread_cos,
        ),
{
}

/// A direction is divided by its own length, and one too short to have a direction points
/// up.
pub proof fn law_direction_is_divided_by_its_length<
    L: Fn(Vec3) -> FloatBits,
    D: Fn(Vec3, FloatBits) -> Vec3,
>(length: L, divide: D, direction: Vec3, d: Vec3, len: FloatBits)
    requires
        is_direction(length, divide, direction, d),
        forall|x: FloatBits| #[trigger] call_ensures(length, (direction,), x) ==> x == len,
    ensures
        0x3586_37bd <= len.bits < 0x7f80_0000 ==> call_ensures(divide, (direction, len), d),
        len.bits < 0x3586_37bd || len.bits >= 0x7f80_0000 ==> d[0].bits == 0 && d[1].bits
            == 0x3f80_0000 && d[2].bits == 0,
{
}

/// The records are those of the emitters that emit, in order: each visible emitter with
/// room for a particle, and with no texture or one that has a slot, is among them, once.
pub proof fn law_every_emitting_emitter_has_a_record(
    emitters: Seq<ParticleEmitter>,
    slots: Map<u32, usize>,
    k: nat,
    j: int,
    a: int,
    b: int,
)
    requires
        k <= emitters.len(),
    ensures
        0 <= j < k ==> (emitting(emitters, slots, k).contains(j) <==> {
            let e = emitters[j];
            e.visible && e.max_particles > 0 && (e.texture is None || slots.dom().contains(
                e.texture->0,
            ))
        }),
        0 <= a < b < emitting(emitters, slots, k).len() ==> 0 <= emitting(emitters, slots, k)[a]
            < emitting(emitters, slots, k)[b] < k,
        forall|m: int|
            0 <= m < emitting(emitters, slots, k).len() ==> 0 <= #[trigger] emitting(
                emitters,
                slots,
                k,
            )[m] < k,
    decreases k,
{
    if k > 0 {
        let before = emitting(emitters, slots, (k - 1) as nat);
        let now = emitting(emitters, slots, k);
        law_every_emitting_emitter_has_a_record(emitters, slots, (k - 1) as nat, j, a, b);
        assert forall|m: int| 0 <= m < now.len() implies 0 <= #[trigger] now[m] < k by {
            if m < before.len() {
                assert(now[m] == before[m]);
            }
        }
        if 0 <= j < k {
            if before.contains(j) {
                let m = choose|m: int| 0 <= m < before.len() && before[m] == j;
                assert(now[m] == j);
            }
            if j == k - 1 && emits(emitters[j], slots) {
                assert(now[now.len() - 1] == j);
            }
            if now.contains(j) {
                let m = choose|m: int| 0 <= m < now.len() && now[m] == j;
                if m < before.len() {
                    assert(before[m] == j);
                    assert(before.contains(j));
                }
            }
        }
    }
}

/// The slot of an emitter is that of its texture, and the first without one.
pub proof fn law_emitter_draws_with_its_texture(e: ParticleEmitter, slots: Map<u32, usize>)
    requires
        emits(e, slots),
    ensures
        emitter_slot(e, slots) == Some(
            match e.texture {
                Some(t) => slots[t],
                None => 0usize,
            },
        ),
{
}

/// What an emitter owes is all of it where the pool can take it, and what the pool can take
/// where it cannot; a pool takes nothing while the emitter is paused: without a rate, and in
/// a step without a length, of a negative one or of one that is no number or without end.
pub proof fn law_owed_is_what_the_pool_can_take(
    sum: FloatBits,
    cap: FloatBits,
    dt: FloatBits,
    spawn_rate: FloatBits,
)
    ensures
        sum.at_most(cap) ==> owed(sum, cap) == sum,
        cap.less(sum) ==> owed(sum, cap) == cap,
        0 < spawn_rate.bits <= 0x7f80_0000 && 0 < dt.bits < 0x7f80_0000 ==> !paused(
            dt,
            spawn_rate,
        ),
        spawn_rate.bits == 0 || 0x8000_0000 <= spawn_rate.bits <= 0xff80_0000 ==> paused(
            dt,
            spawn_rate,
        ),
        dt.bits == 0 || dt.bits >= 0x7f80_0000 ==> paused(dt, spawn_rate),
{
}

/// A record points as its emitter does, divided by its length; an emitter whose direction is
/// too short points up.
pub proof fn law_record_points_as_its_emitter<
    L: Fn(Vec3) -> FloatBits,
    D: Fn(Vec3, FloatBits) -> Vec3,
    S: Fn(FloatBits) -> FloatBits,
>(
    length: L,
    divide: D,
    cosine: S,
    e: ParticleEmitter,
    slot: usize,
    r: ParticleEmitterRecord,
    len: FloatBits,
)
    requires
        is_record(length, divide, cosine, e, slot, r),
        forall|x: FloatBits| #[trigger] call_ensures(length, (e.direction,), x) ==> x == len,
    ensures
        0x3586_37bd <= len.bits < 0x7f80_0000 ==> call_ensures(
            divide,
            (e.direction, len),
            r.direction,
        ),
        len.bits < 0x3586_37bd || len.bits >= 0x7f80_0000 ==> r.direction[0].bits == 0
            && r.direction[1].bits == 0x3f80_0000 && r.direction[2].bits == 0,
{
    law_direction_is_divided_by_its_length(length, divide, e.direction, r.direction, len);
}

} // verus!
