//! Instantiating copies of placed entities at runtime, and the clocks that spawn and
//! expire them.

use crate::float_bits::{FloatBits, INFINITE, Mat4, Vec3, zero};
use crate::tables::{AssetId, copied, lookup, lookup_entity};
use std::collections::HashMap;
use vstd::prelude::*;

verus! {

/// A placement.
#[derive(Debug, Clone, Copy)]
pub struct Transform {
    pub position: Vec3,
    pub rotation: Vec3,
    pub scale: Vec3,
}

/// What a single-mesh entity draws.
#[derive(Debug, Clone, Copy)]
pub struct MeshRenderer {
    pub mesh: Option<AssetId>,
    pub material: Option<AssetId>,
    pub texture: Option<AssetId>,
    pub cull_distance: FloatBits,
}

/// What a multi-mesh entity draws.
#[derive(Debug, Clone, Copy)]
pub struct ModelRenderer {
    pub model: Option<AssetId>,
    pub cull_distance: FloatBits,
}

/// A skinned entity: the mesh whose clips drive it, its skinned draw, and its skeleton
/// by its place in the list of skeletons.
#[derive(Debug, Clone, Copy, PartialEq, Eq, Structural)]
pub struct Pose {
    pub mesh_id: AssetId,
    pub skinned_index: usize,
    pub skeleton: usize,
}

/// The components of the rendered entities.
#[derive(Debug)]
pub struct EntityStore {
    /// The next entity to hand out.
    pub next: u64,
    pub transforms: HashMap<u64, Transform>,
    pub globals: HashMap<u64, Mat4>,
    pub handles: HashMap<u64, Vec<u32>>,
    pub mesh_renderers: HashMap<u64, MeshRenderer>,
    pub model_renderers: HashMap<u64, ModelRenderer>,
    pub poses: HashMap<u64, Pose>,
    /// The seconds each short-lived entity has left.
    pub lifetimes: Vec<(u64, FloatBits)>,
    /// The entity of each name, where names are kept.
    pub names: Option<HashMap<u32, u64>>,
}

/// The draw slots that a copy of a template clones; none where it draws nothing.
pub open spec fn template_slots(handles: Map<u64, Vec<u32>>, template: u64) -> Option<Seq<u32>> {
    if handles.dom().contains(template) && handles[template]@.len() > 0 {
        Some(handles[template]@)
    } else {
        None
    }
}

/// Every slot was cloned.
pub open spec fn all_cloned(clones: Seq<Option<usize>>, n: nat) -> bool {
    clones.len() >= n && forall|i: int| 0 <= i < n ==> #[trigger] clones[i] is Some
}

/// The slots of a copy, in thirty-two bits.
pub open spec fn copied_slots(clones: Seq<Option<usize>>, n: nat) -> Seq<u32> {
    Seq::new(n, |i: int| (clones[i]->0 as int % 0x1_0000_0000) as u32)
}

/// A table with an entry added where there is one to add.
pub open spec fn with_entry<V>(table: Map<u64, V>, e: u64, value: Option<V>) -> Map<u64, V> {
    match value {
        Some(v) => table.insert(e, v),
        None => table,
    }
}

/// The value under a key.
pub open spec fn under<V>(table: Map<u64, V>, e: u64) -> Option<V> {
    if table.dom().contains(e) {
        Some(table[e])
    } else {
        None
    }
}

/// The names after an entity was given one.
pub open spec fn named(
    was: Option<HashMap<u32, u64>>,
    now: Option<HashMap<u32, u64>>,
    name: Option<AssetId>,
    e: u64,
) -> bool {
    match (was, now) {
        (Some(a), Some(b)) => b@ == match name {
            Some(n) => a@.insert(n, e),
            None => a@,
        },
        (None, None) => true,
        _ => false,
    }
}

/// The lifetimes after an entity was given one.
pub open spec fn with_lifetime(
    was: Seq<(u64, FloatBits)>,
    e: u64,
    lifetime: Option<FloatBits>,
) -> Seq<(u64, FloatBits)> {
    match lifetime {
        Some(secs) => was.push((e, secs)),
        None => was,
    }
}

fn clones_slots(clones: &Vec<Option<usize>>, n: usize) -> (r: Option<Vec<u32>>)
    ensures
        match r {
            Some(slots) => all_cloned(clones@, n as nat) && slots@ == copied_slots(
                clones@,
                n as nat,
            ),
            None => !all_cloned(clones@, n as nat),
        },
{
    if clones.len() < n {
        return None;
    }
    let mut out: Vec<u32> = Vec::new();
    let mut i: usize = 0;
    while i < n
        invariant
            i <= n <= clones@.len(),
            forall|j: int| 0 <= j < i ==> #[trigger] clones@[j] is Some,
            out@ == copied_slots(clones@, i as nat),
        decreases n - i,
    {
        match clones[i] {
            None => {
                assert(clones@[i as int] is None);
                return None;
            },
            Some(slot) => {
                out.push((slot as u64 % 0x1_0000_0000) as u32);
            },
        }
        i = i + 1;
        assert(out@ =~= copied_slots(clones@, i as nat));
    }
    Some(out)
}

impl EntityStore {
    /// A store without entities. Names are kept where `keep_names` holds.
    pub fn new(keep_names: bool) -> (r: Self)
        ensures
            r.next == 0,
            r.transforms@ == Map::<u64, Transform>::empty(),
            r.globals@ == Map::<u64, Mat4>::empty(),
            r.handles@ == Map::<u64, Vec<u32>>::empty(),
            r.mesh_renderers@ == Map::<u64, MeshRenderer>::empty(),
            r.model_renderers@ == Map::<u64, ModelRenderer>::empty(),
            r.poses@ == Map::<u64, Pose>::empty(),
            r.lifetimes@ == Seq::<(u64, FloatBits)>::empty(),
            r.names is Some == keep_names,
            r.names matches Some(n) ==> n@ == Map::<u32, u64>::empty(),
    {
        broadcast use vstd::std_specs::hash::group_hash_axioms;

        let names: Option<HashMap<u32, u64>> = if keep_names {
            Some(HashMap::new())
        } else {
            None
        };
        EntityStore {
            next: 0,
            transforms: HashMap::new(),
            globals: HashMap::new(),
            handles: HashMap::new(),
            mesh_renderers: HashMap::new(),
            model_renderers: HashMap::new(),
            poses: HashMap::new(),
            lifetimes: Vec::new(),
            names,
        }
    }

    /// The draw slots to clone for a copy of a template.
    pub fn slots_to_clone(&self, template: u64) -> (r: Option<Vec<u32>>)
        ensures
            match r {
                Some(slots) => template_slots(self.handles@, template) == Some(slots@),
                None => template_slots(self.handles@, template) is None,
            },
    {
        match lookup_entity(&self.handles, template) {
            Some(slots) => if slots.len() > 0 {
                Some(copied(slots))
            } else {
                None
            },
            None => None,
        }
    }

    fn register(&mut self, name: Option<AssetId>, e: u64)
        ensures
            named(old(self).names, final(self).names, name, e),
            final(self).next == old(self).next,
            final(self).transforms == old(self).transforms,
            final(self).globals == old(self).globals,
            final(self).handles == old(self).handles,
            final(self).mesh_renderers == old(self).mesh_renderers,
            final(self).model_renderers == old(self).model_renderers,
            final(self).poses == old(self).poses,
            final(self).lifetimes == old(self).lifetimes,
    {
        broadcast use vstd::std_specs::hash::group_hash_axioms;

        match name {
            Some(n) => match self.names.take() {
                Some(mut table) => {
                    table.insert(n, e);
                    self.names = Some(table);
                },
                None => {},
            },
            None => {},
        }
    }

    /// Finish a copy of a template, given what became of cloning each of its draw
    /// slots. The copy carries the cloned slots, the template's renderer, the placement
    /// and, where asked for, a lifetime and a name. Nothing happens where the template
    /// draws nothing or a slot was not cloned.
    pub fn spawn_from_template(
        &mut self,
        template: u64,
        name: Option<AssetId>,
        transform: Transform,
        model: Mat4,
        lifetime: Option<FloatBits>,
        clones: &Vec<Option<usize>>,
    ) -> (r: Option<u64>)
        requires
            old(self).next < u64::MAX,
        ensures
            ({
                let slots = template_slots(old(self).handles@, template);
                let ready = slots is Some && all_cloned(clones@, slots->0.len());
                let e = old(self).next;
                if ready {
                    &&& r == Some(e)
                    &&& final(self).next == e + 1
                    &&& final(self).transforms@ == old(self).transforms@.insert(e, transform)
                    &&& final(self).globals@ == old(self).globals@.insert(e, model)
                    &&& final(self).handles@.dom() == old(self).handles@.dom().insert(e)
                    &&& final(self).handles@[e]@ == copied_slots(clones@, slots->0.len())
                    &&& final(self).handles@.remove(e) == old(self).handles@.remove(e)
                    &&& final(self).mesh_renderers@ == with_entry(
                        old(self).mesh_renderers@,
                        e,
                        under(old(self).mesh_renderers@, template),
                    )
                    &&& final(self).model_renderers@ == with_entry(
                        old(self).model_renderers@,
                        e,
                        if old(self).mesh_renderers@.dom().contains(template) {
                            None
                        } else {
                            under(old(self).model_renderers@, template)
                        },
                    )
                    &&& final(self).poses == old(self).poses
                    &&& final(self).lifetimes@ == with_lifetime(old(self).lifetimes@, e, lifetime)
                    &&& named(old(self).names, final(self).names, name, e)
                } else {
                    r is None && *final(self) == *old(self)
                }
            }),
    {
        broadcast use vstd::std_specs::hash::group_hash_axioms;

        let count: usize = match lookup_entity(&self.handles, template) {
            Some(slots) => if slots.len() > 0 {
                slots.len()
            } else {
                return None;
            },
            None => {
                return None;
            },
        };
        let draws: Vec<u32> = match clones_slots(clones, count) {
            Some(d) => d,
            None => {
                return None;
            },
        };
        let mesh: Option<MeshRenderer> = match lookup_entity(&self.mesh_renderers, template) {
            Some(m) => Some(*m),
            None => None,
        };
        let model_renderer: Option<ModelRenderer> = match lookup_entity(
            &self.model_renderers,
            template,
        ) {
            Some(m) => Some(*m),
            None => None,
        };
        let e: u64 = self.next;
        let ghost handles_was = self.handles@;
        self.next = e + 1;
        self.transforms.insert(e, transform);
        self.globals.insert(e, model);
        self.handles.insert(e, draws);
        assert(self.handles@.dom() =~= handles_was.dom().insert(e));
        assert(self.handles@.remove(e) =~= handles_was.remove(e));
        match mesh {
            Some(m) => {
                self.mesh_renderers.insert(e, m);
            },
            None => match model_renderer {
                Some(m) => {
                    self.model_renderers.insert(e, m);
                },
                None => {},
            },
        }
        match lifetime {
            Some(secs) => {
                self.lifetimes.push((e, secs));
            },
            None => {},
        }
        self.register(name, e);
        Some(e)
    }

    /// Finish a copy of a skinned template, given the pooled draw that was claimed for
    /// it. The copy has its own pose on the claimed draw, driven by the template's
    /// mesh and on the template's skeleton. Nothing happens where the template is not skinned or none was claimed.
    pub fn spawn_skinned_from_template(
        &mut self,
        template: u64,
        name: Option<AssetId>,
        transform: Transform,
        lifetime: Option<FloatBits>,
        claimed: Option<usize>,
    ) -> (r: Option<u64>)
        requires
            old(self).next < u64::MAX,
        ensures
            ({
                let e = old(self).next;
                if old(self).poses@.dom().contains(template) && claimed is Some {
                    &&& r == Some(e)
                    &&& final(self).next == e + 1
                    &&& final(self).transforms@ == old(self).transforms@.insert(e, transform)
                    &&& final(self).poses@ == old(self).poses@.insert(
                        e,
                        Pose {
                            mesh_id: old(self).poses@[template].mesh_id,
                            skinned_index: claimed->0,
                            skeleton: old(self).poses@[template].skeleton,
                        },
                    )
                    &&& final(self).globals == old(self).globals
                    &&& final(self).handles == old(self).handles
                    &&& final(self).mesh_renderers == old(self).mesh_renderers
                    &&& final(self).model_renderers == old(self).model_renderers
                    &&& final(self).lifetimes@ == with_lifetime(old(self).lifetimes@, e, lifetime)
                    &&& named(old(self).names, final(self).names, name, e)
                } else {
                    r is None && *final(self) == *old(self)
                }
            }),
    {
        broadcast use vstd::std_specs::hash::group_hash_axioms;

        let own: Pose = match lookup_entity(&self.poses, template) {
            Some(p) => *p,
            None => {
                return None;
            },
        };
        let skinned_index: usize = match claimed {
            Some(i) => i,
            None => {
                return None;
            },
        };
        let e: u64 = self.next;
        self.next = e + 1;
        self.transforms.insert(e, transform);
        self.poses.insert(
            e,
            Pose { mesh_id: own.mesh_id, skinned_index, skeleton: own.skeleton },
        );
        match lifetime {
            Some(secs) => {
                self.lifetimes.push((e, secs));
            },
            None => {},
        }
        self.register(name, e);
        Some(e)
    }
}

/// A spawner that emits copies of a template at its own placement.
#[derive(Debug, Clone, Copy)]
pub struct Spawner {
    pub template: AssetId,
    pub interval: FloatBits,
    pub lifetime: FloatBits,
    pub transform: Transform,
    pub elapsed: FloatBits,
    pub count: u32,
}

/// Where a spawner's clock stands after a frame, and how many whole intervals it
/// crossed.
#[derive(Debug, Clone, Copy)]
pub struct SpawnerTick {
    pub elapsed: FloatBits,
    pub due: u32,
}

/// One copy that is due.
#[derive(Debug, Clone, Copy)]
pub struct DueSpawn {
    pub template: AssetId,
    pub transform: Transform,
    pub lifetime: Option<FloatBits>,
}

/// A spawner runs: its interval is not zero or below.
pub open spec fn runs(s: Spawner) -> bool {
    !s.interval.at_most(zero())
}

/// The copy that a spawner emits. A lifetime of zero or below is none.
pub open spec fn emitted(s: Spawner) -> DueSpawn {
    DueSpawn {
        template: s.template,
        transform: s.transform,
        lifetime: if zero().less(s.lifetime) {
            Some(s.lifetime)
        } else {
            None
        },
    }
}

/// The copies due from the first `k` spawners.
pub open spec fn dues(spawners: Seq<Spawner>, ticks: Seq<SpawnerTick>, k: nat) -> Seq<DueSpawn>
    decreases k,
{
    if k == 0 {
        Seq::empty()
    } else {
        let before = dues(spawners, ticks, (k - 1) as nat);
        if runs(spawners[k - 1]) {
            before + Seq::new(ticks[k - 1].due as nat, |i: int| emitted(spawners[k - 1]))
        } else {
            before
        }
    }
}

/// A spawner after a frame.
pub open spec fn ticked(s: Spawner, t: SpawnerTick) -> Spawner {
    if runs(s) {
        Spawner { elapsed: t.elapsed, count: (s.count + t.due) as u32, ..s }
    } else {
        s
    }
}

/// Taking an interval off a clock moves it back, as far as the clock stands at most at
/// `top`: otherwise a clock would never come to rest.
pub open spec fn comes_to_rest<M: Fn(FloatBits, FloatBits) -> FloatBits>(
    minus: M,
    interval: FloatBits,
    top: FloatBits,
) -> bool {
    forall|a: FloatBits, r: FloatBits|
        interval.at_most(a) && a.at_most(top) && #[trigger] call_ensures(minus, (a, interval), r)
            ==> !r.nan() && r.rank() < a.rank()
}

/// The stands of a clock: the first after the frame's time is added, and each next one
/// an interval before the last, as long as that has reached the interval.
pub open spec fn are_stands<
    P: Fn(FloatBits, FloatBits) -> FloatBits,
    M: Fn(FloatBits, FloatBits) -> FloatBits,
>(
    plus: P,
    minus: M,
    elapsed: FloatBits,
    interval: FloatBits,
    dt: FloatBits,
    stands: Seq<FloatBits>,
) -> bool {
    &&& stands.len() > 0
    &&& call_ensures(plus, (elapsed, dt), stands[0])
    &&& forall|i: int|
        1 <= i < stands.len() ==> interval.at_most(stands[i - 1]) && call_ensures(
            minus,
            (stands[i - 1], interval),
            #[trigger] stands[i],
        )
}

/// Whether a tick is a clock's: it stands below the interval, after as many whole
/// intervals as were crossed.
pub open spec fn is_tick<
    P: Fn(FloatBits, FloatBits) -> FloatBits,
    M: Fn(FloatBits, FloatBits) -> FloatBits,
>(
    plus: P,
    minus: M,
    elapsed: FloatBits,
    interval: FloatBits,
    dt: FloatBits,
    t: SpawnerTick,
) -> bool {
    exists|stands: Seq<FloatBits>|
        {
            &&& #[trigger] are_stands(plus, minus, elapsed, interval, dt, stands)
            &&& stands.len() == t.due + 1
            &&& stands.last() == t.elapsed
            &&& !interval.at_most(t.elapsed)
        }
}

/// Advance a clock by a frame's time, and count the whole intervals it crosses.
pub fn tick_clock<
    P: Fn(FloatBits, FloatBits) -> FloatBits,
    M: Fn(FloatBits, FloatBits) -> FloatBits,
>(elapsed: FloatBits, interval: FloatBits, dt: FloatBits, plus: &P, minus: &M) -> (r: SpawnerTick)
    requires
        !interval.at_most(zero()),
        forall|a: FloatBits, b: FloatBits| call_requires(*plus, (a, b)),
        forall|a: FloatBits, b: FloatBits| call_requires(*minus, (a, b)),
        forall|top: FloatBits| #[trigger]
            call_ensures(*plus, (elapsed, dt), top) ==> comes_to_rest(*minus, interval, top),
    ensures
        is_tick(*plus, *minus, elapsed, interval, dt, r),
        r.due <= INFINITE,
{
    let first: FloatBits = plus(elapsed, dt);
    let mut now: FloatBits = first;
    let mut due: u32 = 0;
    let ghost mut stands: Seq<FloatBits> = seq![first];
    while interval.le(now)
        invariant
            !interval.at_most(zero()),
            forall|a: FloatBits, b: FloatBits| call_requires(*minus, (a, b)),
            comes_to_rest(*minus, interval, first),
            are_stands(*plus, *minus, elapsed, interval, dt, stands),
            stands.len() == due + 1,
            stands.last() == now,
            due <= INFINITE,
            due == 0 ==> now == first,
            due > 0 ==> !now.nan() && !first.nan() && now.rank() + due <= first.rank(),
        decreases
            (if interval.at_most(now) {
                now.rank() - interval.rank() + 1
            } else {
                0
            }),
    {
        assert(now.at_most(first));
        assert(now.rank() >= interval.rank() > 0);
        assert(first.rank() <= INFINITE);
        let next: FloatBits = minus(now, interval);
        let ghost before = stands;
        proof {
            stands = stands.push(next);
            assert(stands[0] == before[0]);
            assert forall|i: int| 1 <= i < stands.len() implies interval.at_most(stands[i - 1])
                && call_ensures(*minus, (stands[i - 1], interval), #[trigger] stands[i]) by {
                assert(stands[i - 1] == before[i - 1]);
                if i < before.len() {
                    assert(stands[i] == before[i]);
                }
            }
        }
        due = due + 1;
        now = next;
    }
    SpawnerTick { elapsed: now, due }
}

/// Whether ticks are those of the spawners' clocks: a spawner that does not run has
/// none of its own.
pub open spec fn are_ticks<
    P: Fn(FloatBits, FloatBits) -> FloatBits,
    M: Fn(FloatBits, FloatBits) -> FloatBits,
>(plus: P, minus: M, spawners: Seq<Spawner>, dt: FloatBits, ticks: Seq<SpawnerTick>) -> bool {
    &&& ticks.len() == spawners.len()
    &&& forall|i: int|
        0 <= i < spawners.len() && runs(spawners[i]) ==> is_tick(
            plus,
            minus,
            spawners[i].elapsed,
            spawners[i].interval,
            dt,
            #[trigger] ticks[i],
        )
}

/// The spawners after a frame, and the copies due, by their clocks' ticks.
pub open spec fn are_ticked(
    was: Seq<Spawner>,
    ticks: Seq<SpawnerTick>,
    now: Seq<Spawner>,
    due: Seq<DueSpawn>,
) -> bool {
    &&& now.len() == was.len()
    &&& forall|i: int| 0 <= i < was.len() ==> #[trigger] now[i] == ticked(was[i], ticks[i])
    &&& due == dues(was, ticks, was.len())
}

/// Advance every running spawner's clock by a frame, and give the copies now due: one
/// per whole interval crossed. `plus` adds and `minus` subtracts.
pub fn tick_spawners<
    P: Fn(FloatBits, FloatBits) -> FloatBits,
    M: Fn(FloatBits, FloatBits) -> FloatBits,
>(spawners: &mut Vec<Spawner>, dt: FloatBits, plus: &P, minus: &M) -> (r: Vec<DueSpawn>)
    requires
        forall|a: FloatBits, b: FloatBits| call_requires(*plus, (a, b)),
        forall|a: FloatBits, b: FloatBits| call_requires(*minus, (a, b)),
        forall|i: int, top: FloatBits|
            0 <= i < old(spawners)@.len() && runs(old(spawners)@[i]) && #[trigger] call_ensures(
                *plus,
                (old(spawners)@[i].elapsed, dt),
                top,
            ) ==> comes_to_rest(*minus, old(spawners)@[i].interval, top),
        forall|i: int, t: SpawnerTick|
            0 <= i < old(spawners)@.len() && runs(old(spawners)@[i]) && #[trigger] is_tick(
                *plus,
                *minus,
                old(spawners)@[i].elapsed,
                old(spawners)@[i].interval,
                dt,
                t,
            ) ==> old(spawners)@[i].count + t.due <= u32::MAX,
    ensures
        exists|ticks: Seq<SpawnerTick>|
            {
                &&& #[trigger] are_ticks(*plus, *minus, old(spawners)@, dt, ticks)
                &&& are_ticked(old(spawners)@, ticks, final(spawners)@, r@)
            },
{
    let ghost was = spawners@;
    let ghost mut ticks: Seq<SpawnerTick> = Seq::empty();
    let mut out: Vec<DueSpawn> = Vec::new();
    let mut k: usize = 0;
    while k < spawners.len()
        invariant
            k <= was.len(),
            spawners@.len() == was.len(),
            ticks.len() == k,
            forall|a: FloatBits, b: FloatBits| call_requires(*plus, (a, b)),
            forall|a: FloatBits, b: FloatBits| call_requires(*minus, (a, b)),
            forall|i: int, top: FloatBits|
                0 <= i < was.len() && runs(was[i]) && #[trigger] call_ensures(
                    *plus,
                    (was[i].elapsed, dt),
                    top,
                ) ==> comes_to_rest(*minus, was[i].interval, top),
            forall|i: int, t: SpawnerTick|
                0 <= i < was.len() && runs(was[i]) && #[trigger] is_tick(
                    *plus,
                    *minus,
                    was[i].elapsed,
                    was[i].interval,
                    dt,
                    t,
                ) ==> was[i].count + t.due <= u32::MAX,
            forall|i: int|
                0 <= i < k && runs(was[i]) ==> is_tick(
                    *plus,
                    *minus,
                    was[i].elapsed,
                    was[i].interval,
                    dt,
                    #[trigger] ticks[i],
                ),
            forall|i: int| 0 <= i < k ==> #[trigger] spawners@[i] == ticked(was[i], ticks[i]),
            forall|i: int| k <= i < was.len() ==> #[trigger] spawners@[i] == was[i],
            out@ == dues(was, ticks, k as nat),
        decreases was.len() - k,
    {
        let s: Spawner = spawners[k];
        let ghost ticks0 = ticks;
        let ghost before = out@;
        assert(s == was[k as int]);
        if !s.interval.le(FloatBits::new(0)) {
            let t: SpawnerTick = tick_clock(s.elapsed, s.interval, dt, plus, minus);
            proof {
                ticks = ticks.push(t);
            }
            emit(&mut out, &s, t.due);
            spawners.set(k, Spawner { elapsed: t.elapsed, count: s.count + t.due, ..s });
        } else {
            proof {
                ticks = ticks.push(SpawnerTick { elapsed: s.elapsed, due: 0 });
            }
        }
        proof {
            lemma_dues_extend(was, ticks0, ticks, k as nat);
            assert forall|i: int| 0 <= i < k + 1 implies #[trigger] spawners@[i] == ticked(
                was[i],
                ticks[i],
            ) by {
                if i < k {
                    assert(ticks[i] == ticks0[i]);
                }
            }
            assert forall|i: int| 0 <= i < k + 1 && runs(was[i]) implies is_tick(
                *plus,
                *minus,
                was[i].elapsed,
                was[i].interval,
                dt,
                #[trigger] ticks[i],
            ) by {
                if i < k {
                    assert(ticks[i] == ticks0[i]);
                }
            }
        }
        k = k + 1;
    }
    assert(are_ticks(*plus, *minus, was, dt, ticks));
    out
}

/// Append a number of a spawner's copies.
fn emit(out: &mut Vec<DueSpawn>, s: &Spawner, due: u32)
    ensures
        final(out)@ == old(out)@ + Seq::new(due as nat, |i: int| emitted(*s)),
{
    let lifetime: Option<FloatBits> = if FloatBits::new(0).lt(s.lifetime) {
        Some(s.lifetime)
    } else {
        None
    };
    let copy: DueSpawn = DueSpawn { template: s.template, transform: s.transform, lifetime };
    let ghost before = out@;
    let ghost copies = Seq::new(due as nat, |i: int| emitted(*s));
    let mut n: u32 = 0;
    assert(out@ =~= before + copies.subrange(0, 0));
    while n < due
        invariant
            n <= due,
            copies == Seq::new(due as nat, |i: int| emitted(*s)),
            copy == emitted(*s),
            out@ == before + copies.subrange(0, n as int),
        decreases due - n,
    {
        out.push(copy);
        n = n + 1;
        assert(out@ =~= before + copies.subrange(0, n as int));
    }
    assert(copies.subrange(0, n as int) =~= copies);
}

proof fn lemma_dues_extend(
    spawners: Seq<Spawner>,
    a: Seq<SpawnerTick>,
    b: Seq<SpawnerTick>,
    k: nat,
)
    requires
        k <= a.len() <= b.len(),
        forall|i: int| 0 <= i < a.len() ==> #[trigger] b[i] == a[i],
    ensures
        dues(spawners, a, k) == dues(spawners, b, k),
    decreases k,
{
    if k > 0 {
        lemma_dues_extend(spawners, a, b, (k - 1) as nat);
        assert(b[k - 1] == a[k - 1]);
    }
}

/// A spawner whose interval is zero or below is inert: nothing of it changes and it
/// emits nothing.
pub proof fn law_inert_spawner_emits_nothing(
    was: Seq<Spawner>,
    ticks: Seq<SpawnerTick>,
    k: nat,
)
    requires
        0 < k <= was.len(),
        was[k - 1].interval.at_most(zero()),
    ensures
        ticked(was[k - 1], ticks[k - 1]) == was[k - 1],
        dues(was, ticks, k) == dues(was, ticks, (k - 1) as nat),
{
}

/// The entities among the first `k` whose countdown has run out.
pub open spec fn expired(lifetimes: Seq<(u64, FloatBits)>, k: nat) -> Seq<u64>
    decreases k,
{
    if k == 0 {
        Seq::empty()
    } else {
        let before = expired(lifetimes, (k - 1) as nat);
        if lifetimes[k - 1].1.at_most(zero()) {
            before.push(lifetimes[k - 1].0)
        } else {
            before
        }
    }
}

proof fn lemma_expired_prefix(a: Seq<(u64, FloatBits)>, b: Seq<(u64, FloatBits)>, k: nat)
    requires
        k <= a.len(),
        k <= b.len(),
        forall|i: int| 0 <= i < k ==> #[trigger] a[i] == b[i],
    ensures
        expired(a, k) == expired(b, k),
    decreases k,
{
    if k > 0 {
        lemma_expired_prefix(a, b, (k - 1) as nat);
        assert(a[k - 1] == b[k - 1]);
    }
}

/// Count every lifetime down and give the entities whose time has run out. `minus`
/// subtracts.
pub fn tick_lifetimes<F: Fn(FloatBits, FloatBits) -> FloatBits>(
    lifetimes: &mut Vec<(u64, FloatBits)>,
    dt: FloatBits,
    minus: &F,
) -> (r: Vec<u64>)
    requires
        forall|a: FloatBits, b: FloatBits| call_requires(*minus, (a, b)),
    ensures
        final(lifetimes)@.len() == old(lifetimes)@.len(),
        forall|i: int|
            0 <= i < old(lifetimes)@.len() ==> (#[trigger] final(lifetimes)@[i]).0 == old(
                lifetimes,
            )@[i].0 && call_ensures(
                *minus,
                (old(lifetimes)@[i].1, dt),
                final(lifetimes)@[i].1,
            ),
        r@ == expired(final(lifetimes)@, final(lifetimes)@.len()),
{
    let ghost was = lifetimes@;
    let mut out: Vec<u64> = Vec::new();
    let mut k: usize = 0;
    while k < lifetimes.len()
        invariant
            k <= was.len(),
            lifetimes@.len() == was.len(),
            forall|a: FloatBits, b: FloatBits| call_requires(*minus, (a, b)),
            forall|i: int|
                0 <= i < k ==> (#[trigger] lifetimes@[i]).0 == was[i].0 && call_ensures(
                    *minus,
                    (was[i].1, dt),
                    lifetimes@[i].1,
                ),
            forall|i: int| k <= i < was.len() ==> #[trigger] lifetimes@[i] == was[i],
            out@ == expired(lifetimes@, k as nat),
        decreases was.len() - k,
    {
        let (e, remaining): (u64, FloatBits) = lifetimes[k];
        let left: FloatBits = minus(remaining, dt);
        let ghost before = lifetimes@;
        lifetimes.set(k, (e, left));
        proof {
            lemma_expired_prefix(before, lifetimes@, k as nat);
        }
        if left.le(FloatBits::new(0)) {
            out.push(e);
        }
        k = k + 1;
    }
    out
}

/// The entities of the first `k` names, without the names that nothing has.
pub open spec fn resolved_names(
    names: Seq<AssetId>,
    by_name: Map<u32, u64>,
    k: nat,
) -> Seq<u64>
    decreases k,
{
    if k == 0 {
        Seq::empty()
    } else {
        let before = resolved_names(names, by_name, (k - 1) as nat);
        if by_name.dom().contains(names[k - 1]) {
            before.push(by_name[names[k - 1]])
        } else {
            before
        }
    }
}

/// The entities to remove, by name.
pub fn despawn_targets(names: &Vec<AssetId>, by_name: &HashMap<u32, u64>) -> (r: Vec<u64>)
    ensures
        r@ == resolved_names(names@, by_name@, names@.len()),
{
    let mut out: Vec<u64> = Vec::new();
    let mut k: usize = 0;
    while k < names.len()
        invariant
            k <= names@.len(),
            out@ == resolved_names(names@, by_name@, k as nat),
        decreases names@.len() - k,
    {
        match lookup(by_name, names[k]) {
            Some(e) => {
                out.push(*e);
            },
            None => {},
        }
        k = k + 1;
    }
    out
}

/// A request to hang an entity under another one, or under none.
#[derive(Debug, Clone, Copy, PartialEq, Eq)]
pub struct ReparentRequest {
    pub child: AssetId,
    pub parent: Option<AssetId>,
}

/// The entities of the first `k` requests. A request whose child, or whose named
/// parent, nothing has is dropped, so that a mistyped parent never detaches a child.
pub open spec fn resolved_moves(
    reqs: Seq<ReparentRequest>,
    by_name: Map<u32, u64>,
    k: nat,
) -> Seq<(u64, Option<u64>)>
    decreases k,
{
    if k == 0 {
        Seq::empty()
    } else {
        let before = resolved_moves(reqs, by_name, (k - 1) as nat);
        let req = reqs[k - 1];
        if by_name.dom().contains(req.child) {
            match req.parent {
                None => before.push((by_name[req.child], None)),
                Some(p) => if by_name.dom().contains(p) {
                    before.push((by_name[req.child], Some(by_name[p])))
                } else {
                    before
                },
            }
        } else {
            before
        }
    }
}

/// The moves to make, by name.
pub fn reparent_targets(reqs: &Vec<ReparentRequest>, by_name: &HashMap<u32, u64>) -> (r: Vec<
    (u64, Option<u64>),
>)
    ensures
        r@ == resolved_moves(reqs@, by_name@, reqs@.len()),
{
    let mut out: Vec<(u64, Option<u64>)> = Vec::new();
    let mut k: usize = 0;
    while k < reqs.len()
        invariant
            k <= reqs@.len(),
            out@ == resolved_moves(reqs@, by_name@, k as nat),
        decreases reqs@.len() - k,
    {
        let req: ReparentRequest = reqs[k];
        match lookup(by_name, req.child) {
            Some(child) => match req.parent {
                None => {
                    out.push((*child, None));
                },
                Some(p) => match lookup(by_name, p) {
                    Some(parent) => {
                        out.push((*child, Some(*parent)));
                    },
                    None => {},
                },
            },
            None => {},
        }
        k = k + 1;
    }
    out
}

/// How a template is copied.
#[derive(Debug, Clone, Copy, PartialEq, Eq, Structural)]
pub enum SpawnKind {
    /// By cloning its draw slots.
    Static,
    /// By claiming one of its pooled skinned draws.
    Skinned,
}

/// What a request to copy a template comes to: none where nothing has its name, and
/// otherwise the template's entity and how it is copied.
pub fn spawn_target(
    template: AssetId,
    by_name: &HashMap<u32, u64>,
    poses: &HashMap<u64, Pose>,
) -> (r: Option<(u64, SpawnKind)>)
    ensures
        r == if by_name@.dom().contains(template) {
            Some(
                (
                    by_name@[template],
                    if poses@.dom().contains(by_name@[template]) {
                        SpawnKind::Skinned
                    } else {
                        SpawnKind::Static
                    },
                ),
            )
        } else {
            None
        },
{
    match lookup(by_name, template) {
        Some(e) => {
            let kind: SpawnKind = match lookup_entity(poses, *e) {
                Some(_) => SpawnKind::Skinned,
                None => SpawnKind::Static,
            };
            Some((*e, kind))
        },
        None => None,
    }
}

/// A spawned copy owns as many slots as its template, and can itself be copied.
pub proof fn law_copy_is_a_template(
    handles: Map<u64, Vec<u32>>,
    after: Map<u64, Vec<u32>>,
    template: u64,
    e: u64,
    clones: Seq<Option<usize>>,
)
    requires
        template_slots(handles, template) is Some,
        after.dom() == handles.dom().insert(e),
        after[e]@ == copied_slots(clones, template_slots(handles, template)->0.len()),
    ensures
        template_slots(after, e) is Some,
        template_slots(after, e)->0.len() == template_slots(handles, template)->0.len(),
{
}

/// A copy draws in the slots that were cloned for it, in order, and as many of them as its
/// template has.
pub proof fn law_copy_draws_in_its_clones(clones: Seq<Option<usize>>, n: nat, i: int)
    requires
        all_cloned(clones, n),
        0 <= i < n,
        clones[i]->0 <= u32::MAX,
    ensures
        copied_slots(clones, n).len() == n,
        clones[i] == Some(copied_slots(clones, n)[i] as usize),
{
}

/// What a template is drawn by, its copy is drawn by, and no other entity is touched.
pub proof fn law_copy_shares_what_its_template_has<V>(
    table: Map<u64, V>,
    e: u64,
    template: u64,
    other: u64,
)
    requires
        !table.dom().contains(e),
        other != e,
    ensures
        ({
            let after = with_entry(table, e, under(table, template));
            &&& after.dom().contains(e) <==> table.dom().contains(template)
            &&& table.dom().contains(template) ==> after[e] == table[template]
            &&& after.dom().contains(other) <==> table.dom().contains(other)
            &&& table.dom().contains(other) ==> after[other] == table[other]
        }),
{
}

/// A copy is found by the name it was given, and the other names stand for what they stood
/// for.
pub proof fn law_copy_is_found_by_its_name(
    was: Option<HashMap<u32, u64>>,
    now: Option<HashMap<u32, u64>>,
    name: Option<AssetId>,
    e: u64,
    other: AssetId,
)
    requires
        named(was, now, name, e),
        name != Some(other),
    ensures
        now is Some <==> was is Some,
        now is Some && name is Some ==> now->0@.dom().contains(name->0) && now->0@[name->0] == e,
        now is Some ==> (now->0@.dom().contains(other) <==> was->0@.dom().contains(other)),
        now is Some && was->0@.dom().contains(other) ==> now->0@[other] == was->0@[other],
{
}

/// A short-lived copy counts down from the lifetime it was given, behind those that count
/// down already; a lasting one does not count down.
pub proof fn law_copy_counts_down(
    was: Seq<(u64, FloatBits)>,
    e: u64,
    lifetime: Option<FloatBits>,
    i: int,
)
    requires
        0 <= i < was.len(),
    ensures
        with_lifetime(was, e, lifetime).len() == was.len() + (if lifetime is Some {
            1int
        } else {
            0
        }),
        with_lifetime(was, e, lifetime)[i] == was[i],
        lifetime matches Some(secs) ==> with_lifetime(was, e, lifetime).last() == (e, secs),
{
}

/// A spawner runs exactly where its interval is more than zero, or no number.
pub proof fn law_spawner_runs_by_its_interval(s: Spawner)
    ensures
        0 < s.interval.bits <= 0x7f80_0000 ==> runs(s),
        s.interval.bits == 0 || 0x8000_0000 <= s.interval.bits <= 0xff80_0000 ==> !runs(s),
{
}

/// A running spawner emits a copy of its own template, at its own place, for each interval
/// that its clock crossed, behind the copies of the spawners before it. A copy lasts for the
/// spawner's lifetime, and for good where that is zero or below.
pub proof fn law_spawner_emits_its_template(
    spawners: Seq<Spawner>,
    ticks: Seq<SpawnerTick>,
    k: nat,
    i: int,
)
    requires
        0 < k <= spawners.len(),
        0 < spawners[k - 1].interval.bits <= 0x7f80_0000,
        0 <= i < ticks[k - 1].due,
    ensures
        ({
            let s = spawners[k - 1];
            let before = dues(spawners, ticks, (k - 1) as nat);
            let after = dues(spawners, ticks, k);
            &&& after.len() == before.len() + ticks[k - 1].due
            &&& after.subrange(0, before.len() as int) == before
            &&& after[before.len() + i].template == s.template
            &&& after[before.len() + i].transform == s.transform
            &&& 0 < s.lifetime.bits <= 0x7f80_0000 ==> after[before.len() + i].lifetime == Some(
                s.lifetime,
            )
            &&& s.lifetime.bits == 0 || s.lifetime.bits >= 0x8000_0000 ==> after[before.len()
                + i].lifetime is None
        }),
{
    let before = dues(spawners, ticks, (k - 1) as nat);
    let after = dues(spawners, ticks, k);
    assert(after.subrange(0, before.len() as int) =~= before);
}

/// A tick moves a running spawner's clock and counts the copies, and changes nothing else of
/// the spawner.
pub proof fn law_tick_moves_the_clock(s: Spawner, t: SpawnerTick)
    requires
        0 < s.interval.bits <= 0x7f80_0000,
        s.count + t.due <= u32::MAX,
    ensures
        ticked(s, t).elapsed == t.elapsed,
        ticked(s, t).count == s.count + t.due,
        ticked(s, t).template == s.template,
        ticked(s, t).interval == s.interval,
        ticked(s, t).lifetime == s.lifetime,
        ticked(s, t).transform == s.transform,
{
}

/// A clock that does not reach its interval emits nothing and stands where the frame's time
/// brought it; one that reaches it emits, and comes to stand below it, back by as many
/// intervals as it emitted.
pub proof fn law_clock_emits_once_it_reaches_its_interval<
    P: Fn(FloatBits, FloatBits) -> FloatBits,
    M: Fn(FloatBits, FloatBits) -> FloatBits,
>(
    plus: P,
    minus: M,
    elapsed: FloatBits,
    interval: FloatBits,
    dt: FloatBits,
    sum: FloatBits,
    less_one: FloatBits,
    t: SpawnerTick,
)
    requires
        is_tick(plus, minus, elapsed, interval, dt, t),
        forall|x: FloatBits| #[trigger] call_ensures(plus, (elapsed, dt), x) ==> x == sum,
        forall|x: FloatBits| #[trigger] call_ensures(minus, (sum, interval), x) ==> x == less_one,
    ensures
        !interval.at_most(t.elapsed),
        t.due == 0 <==> !interval.at_most(sum),
        t.due == 0 ==> t.elapsed == sum,
        interval.at_most(sum) && !interval.at_most(less_one) ==> t.due == 1 && t.elapsed
            == less_one,
        interval.at_most(sum) && interval.at_most(less_one) ==> t.due >= 2,
{
    let stands = choose|stands: Seq<FloatBits>|
        {
            &&& #[trigger] are_stands(plus, minus, elapsed, interval, dt, stands)
            &&& stands.len() == t.due + 1
            &&& stands.last() == t.elapsed
            &&& !interval.at_most(t.elapsed)
        };
    assert(stands[0] == sum);
    if stands.len() > 1 {
        assert(call_ensures(minus, (stands[1 - 1], interval), stands[1]));
        assert(stands[1] == less_one);
    }
    if stands.len() > 2 {
        assert(call_ensures(minus, (stands[2 - 1], interval), stands[2]));
    }
}

/// An entity expires exactly where a countdown of its own has come to zero or below.
pub proof fn law_expires_at_zero(lifetimes: Seq<(u64, FloatBits)>, k: nat, e: u64)
    requires
        k <= lifetimes.len(),
    ensures
        expired(lifetimes, k).contains(e) <==> exists|i: int|
            0 <= i < k && (#[trigger] lifetimes[i]).0 == e && (lifetimes[i].1.bits == 0
                || 0x8000_0000 <= lifetimes[i].1.bits <= 0xff80_0000),
    decreases k,
{
    if k > 0 {
        law_expires_at_zero(lifetimes, (k - 1) as nat, e);
        let before = expired(lifetimes, (k - 1) as nat);
        let now = expired(lifetimes, k);
        assert(lifetimes[k - 1].1.at_most(zero()) <==> (lifetimes[k - 1].1.bits == 0
            || 0x8000_0000 <= lifetimes[k - 1].1.bits <= 0xff80_0000));
        if before.contains(e) {
            let i = choose|i: int| 0 <= i < before.len() && before[i] == e;
            assert(now[i] == e);
        }
        if lifetimes[k - 1].0 == e && lifetimes[k - 1].1.at_most(zero()) {
            assert(now[now.len() - 1] == e);
        }
        if now.contains(e) && !before.contains(e) {
            let i = choose|i: int| 0 <= i < now.len() && now[i] == e;
            assert(i == before.len());
            assert(lifetimes[k - 1].0 == e);
        }
    }
}

/// An entity is removed exactly where a name of the request stands for it.
pub proof fn law_removes_what_the_names_stand_for(
    names: Seq<AssetId>,
    by_name: Map<u32, u64>,
    k: nat,
    e: u64,
)
    requires
        k <= names.len(),
    ensures
        resolved_names(names, by_name, k).contains(e) <==> exists|i: int|
            0 <= i < k && by_name.dom().contains(#[trigger] names[i]) && by_name[names[i]] == e,
    decreases k,
{
    if k > 0 {
        law_removes_what_the_names_stand_for(names, by_name, (k - 1) as nat, e);
        let before = resolved_names(names, by_name, (k - 1) as nat);
        let now = resolved_names(names, by_name, k);
        if before.contains(e) {
            let i = choose|i: int| 0 <= i < before.len() && before[i] == e;
            assert(now[i] == e);
        }
        if by_name.dom().contains(names[k - 1]) && by_name[names[k - 1]] == e {
            assert(now[now.len() - 1] == e);
        }
        if now.contains(e) && !before.contains(e) {
            let i = choose|i: int| 0 <= i < now.len() && now[i] == e;
            assert(i == before.len());
            assert(by_name.dom().contains(names[k - 1]));
        }
    }
}

/// An entity is hung under another exactly where a request says so and both its names stand
/// for something, and freed exactly where a request for it names no parent: a parent's name
/// that stands for nothing leaves the child where it is.
pub proof fn law_moves_what_the_requests_name(
    reqs: Seq<ReparentRequest>,
    by_name: Map<u32, u64>,
    k: nat,
    child: u64,
    parent: Option<u64>,
)
    requires
        k <= reqs.len(),
    ensures
        resolved_moves(reqs, by_name, k).contains((child, parent)) <==> exists|i: int|
            0 <= i < k && by_name.dom().contains((#[trigger] reqs[i]).child)
                && by_name[reqs[i].child] == child && match parent {
                Some(p) => reqs[i].parent is Some && by_name.dom().contains(reqs[i].parent->0)
                    && by_name[reqs[i].parent->0] == p,
                None => reqs[i].parent is None,
            },
    decreases k,
{
    if k > 0 {
        law_moves_what_the_requests_name(reqs, by_name, (k - 1) as nat, child, parent);
        let before = resolved_moves(reqs, by_name, (k - 1) as nat);
        let now = resolved_moves(reqs, by_name, k);
        let m = (child, parent);
        let req = reqs[k - 1];
        if before.contains(m) {
            let i = choose|i: int| 0 <= i < before.len() && before[i] == m;
            assert(now[i] == m);
        }
        if now.len() > before.len() && now[before.len() as int] == m {
            assert(now.contains(m));
            assert(by_name.dom().contains(req.child));
        }
        if now.contains(m) && !before.contains(m) {
            let i = choose|i: int| 0 <= i < now.len() && now[i] == m;
            assert(i == before.len());
        }
    }
}

/// A frame moves every spawner that runs by its own clock, each once, and leaves the rest of
/// it alone.
pub proof fn law_each_spawner_ticks_by_its_own_clock<
    P: Fn(FloatBits, FloatBits) -> FloatBits,
    M: Fn(FloatBits, FloatBits) -> FloatBits,
>(
    plus: P,
    minus: M,
    was: Seq<Spawner>,
    dt: FloatBits,
    ticks: Seq<SpawnerTick>,
    now: Seq<Spawner>,
    due: Seq<DueSpawn>,
    i: int,
)
    requires
        are_ticks(plus, minus, was, dt, ticks),
        are_ticked(was, ticks, now, due),
        0 <= i < was.len(),
    ensures
        now.len() == was.len(),
        ticks.len() == was.len(),
        now[i] == ticked(was[i], ticks[i]),
        runs(was[i]) ==> is_tick(plus, minus, was[i].elapsed, was[i].interval, dt, ticks[i]),
        due == dues(was, ticks, was.len()),
{
    let s = now[i];
    let t = ticks[i];
}

} // verus!
