//! Sliding-window streaming policy for an unbounded voxel world.
//!
//! Given the camera's chunk, the window decides which chunks to load, nearest
//! first and within a budget, and which to evict. Chunks within the near radius
//! stream at full detail, those beyond it but within the far radius as coarse
//! impostors; a chunk that crosses the boundary is evicted and loaded again at
//! the new detail. Hysteresis on both boundaries keeps a pacing camera from
//! thrashing. With equal radii there is one detail alone, and a chunk is retained
//! until it is past the evict radius.

use crate::chunk_coord::{ChunkCoord, block, chebyshev, squared};
use crate::coord_map::CoordMap;
use crate::order::{Ranked, sorted, strictly_ascending};
use vstd::prelude::*;

verus! {

/// Rings a chunk may drift beyond the far radius before it is evicted.
pub const EVICT_HYSTERESIS: i32 = 2;

/// Rings a full-detail chunk may drift past the near radius before it is
/// downgraded.
pub const DETAIL_HYSTERESIS: i32 = 1;

/// Residency of a tracked chunk.
#[derive(Clone, Copy, PartialEq, Eq, Debug, Structural)]
pub enum ChunkState {
    /// A load was dispatched and has not completed.
    Pending,
    /// The chunk's mesh is on the GPU.
    Resident,
}

/// Which representation a chunk is streamed at.
#[derive(Clone, Copy, PartialEq, Eq, Debug, Structural)]
pub enum ChunkDetail {
    /// Full voxel geometry.
    Near,
    /// A coarse distant impostor.
    Far,
}

/// What the window knows of a tracked chunk.
#[derive(Clone, Copy, PartialEq, Eq, Debug, Structural)]
pub struct Slot {
    pub state: ChunkState,
    pub detail: ChunkDetail,
}

/// The decisions of one [`ChunkWindow::plan`] call.
#[derive(Debug)]
pub struct ChunkPlan {
    /// Chunks to load, nearest to the camera first, with the detail to load at.
    pub to_load: Vec<(ChunkCoord, ChunkDetail)>,
    /// Chunks to remove, in coordinate order.
    pub to_evict: Vec<ChunkCoord>,
}

/// The residency bookkeeping of the camera-centred window.
#[derive(Debug)]
pub struct ChunkWindow {
    entries: CoordMap<Slot>,
    near_radius: i32,
    far_radius: i32,
    evict_radius: i32,
    load_budget: usize,
}

/// The detail a chunk should be at, given the detail it is tracked at. Where the far
/// band is empty a full-detail chunk has nothing to be downgraded to.
pub open spec fn target(
    near: int,
    far: int,
    c: ChunkCoord,
    camera: ChunkCoord,
    current: Option<ChunkDetail>,
) -> ChunkDetail {
    let d = chebyshev(c, camera);
    let keeps = near == far || d <= near + DETAIL_HYSTERESIS;
    if d <= near || (current == Some(ChunkDetail::Near) && keeps) {
        ChunkDetail::Near
    } else {
        ChunkDetail::Far
    }
}

/// Whether a tracked chunk stays: it is within the evict radius and at the
/// detail it should be at.
pub open spec fn stays(near: int, far: int, camera: ChunkCoord, c: ChunkCoord, slot: Slot) -> bool {
    &&& chebyshev(c, camera) <= far + EVICT_HYSTERESIS
    &&& target(near, far, c, camera, Some(slot.detail)) == slot.detail
}

/// The tracked chunks that stay.
pub open spec fn survivors(
    near: int,
    far: int,
    camera: ChunkCoord,
    slots: Map<ChunkCoord, Slot>,
) -> Map<ChunkCoord, Slot> {
    Map::new(
        |c: ChunkCoord| slots.dom().contains(c) && stays(near, far, camera, c, slots[c]),
        |c: ChunkCoord| slots[c],
    )
}

/// The load order: nearer chunks first, ties in coordinate order.
pub open spec fn nearer(camera: ChunkCoord, a: ChunkCoord, b: ChunkCoord) -> bool {
    squared(a, camera) < squared(b, camera) || (squared(a, camera) == squared(b, camera)
        && ChunkCoord::ranks(a, b) && a != b)
}

/// Whether `loads` loads the chunk `c`.
pub open spec fn loads(to_load: Seq<(ChunkCoord, ChunkDetail)>, c: ChunkCoord) -> bool {
    exists|i: int| 0 <= i < to_load.len() && (#[trigger] to_load[i]).0 == c
}

/// Whether a chunk is wanted: within the far radius and not tracked.
pub open spec fn wanted(
    far: int,
    camera: ChunkCoord,
    slots: Map<ChunkCoord, Slot>,
    c: ChunkCoord,
) -> bool {
    chebyshev(c, camera) <= far && !slots.dom().contains(c)
}

/// The evictions of a plan: exactly the tracked chunks that do not stay.
pub open spec fn evicts_leavers(
    before: Map<ChunkCoord, Slot>,
    stay: Map<ChunkCoord, Slot>,
    to_evict: Seq<ChunkCoord>,
) -> bool {
    &&& strictly_ascending(to_evict)
    &&& forall|c: ChunkCoord| #[trigger]
        to_evict.contains(c) <==> before.dom().contains(c) && !stay.dom().contains(c)
}

/// The loads of a plan: the first `budget` of the wanted chunks in load order.
pub open spec fn loads_nearest(
    near: int,
    far: int,
    budget: int,
    camera: ChunkCoord,
    stay: Map<ChunkCoord, Slot>,
    to_load: Seq<(ChunkCoord, ChunkDetail)>,
) -> bool {
    &&& to_load.len() <= budget
    &&& forall|i: int|
        0 <= i < to_load.len() ==> wanted(far, camera, stay, (#[trigger] to_load[i]).0)
            && to_load[i].1 == target(near, far, to_load[i].0, camera, None)
    &&& forall|i: int, j: int|
        0 <= i < j < to_load.len() ==> nearer(
            camera,
            (#[trigger] to_load[i]).0,
            (#[trigger] to_load[j]).0,
        )
    &&& forall|c: ChunkCoord|
        #[trigger] wanted(far, camera, stay, c) && !loads(to_load, c) ==> to_load.len() == budget
            && forall|i: int| 0 <= i < to_load.len() ==> nearer(camera, (#[trigger] to_load[i]).0, c)
}

/// The tracked chunks after a plan: those that stayed, and the loads as pending.
pub open spec fn after_loads(
    stay: Map<ChunkCoord, Slot>,
    to_load: Seq<(ChunkCoord, ChunkDetail)>,
    after: Map<ChunkCoord, Slot>,
) -> bool {
    &&& forall|c: ChunkCoord| #[trigger]
        after.dom().contains(c) <==> stay.dom().contains(c) || loads(to_load, c)
    &&& forall|c: ChunkCoord| #[trigger] stay.dom().contains(c) ==> after[c] == stay[c]
    &&& forall|i: int|
        0 <= i < to_load.len() ==> after[(#[trigger] to_load[i]).0] == (Slot {
            state: ChunkState::Pending,
            detail: to_load[i].1,
        })
}

/// What one plan decides, from the tracked chunks before it to those after it.
pub open spec fn is_plan(
    near: int,
    far: int,
    budget: int,
    before: Map<ChunkCoord, Slot>,
    camera: ChunkCoord,
    to_load: Seq<(ChunkCoord, ChunkDetail)>,
    to_evict: Seq<ChunkCoord>,
    after: Map<ChunkCoord, Slot>,
) -> bool {
    let stay = survivors(near, far, camera, before);
    &&& evicts_leavers(before, stay, to_evict)
    &&& loads_nearest(near, far, budget, camera, stay, to_load)
    &&& after_loads(stay, to_load, after)
}

/// The tracked chunks in a given residency state.
pub open spec fn in_state(slots: Map<ChunkCoord, Slot>, state: ChunkState) -> Set<ChunkCoord> {
    Set::new(|c: ChunkCoord| slots.dom().contains(c) && slots[c].state == state)
}

/// The resident chunks at a given detail.
pub open spec fn resident_at(slots: Map<ChunkCoord, Slot>, detail: ChunkDetail) -> Set<
    ChunkCoord,
> {
    Set::new(
        |c: ChunkCoord|
            slots.dom().contains(c) && slots[c].state == ChunkState::Resident
                && slots[c].detail == detail,
    )
}

/// Whether two tables track the same chunks at the same details: they differ in
/// residency at most.
pub open spec fn same_details(a: Map<ChunkCoord, Slot>, b: Map<ChunkCoord, Slot>) -> bool {
    &&& a.dom() == b.dom()
    &&& forall|c: ChunkCoord| #[trigger] a.dom().contains(c) ==> a[c].detail == b[c].detail
}

/// A wanted chunk with its distance, in load order.
#[derive(Clone, Copy)]
struct Candidate {
    sq: u128,
    coord: ChunkCoord,
}

impl Ranked for Candidate {
    closed spec fn ranks(a: Self, b: Self) -> bool {
        a.sq < b.sq || (a.sq == b.sq && ChunkCoord::ranks(a.coord, b.coord))
    }

    proof fn linear(a: Self, b: Self, c: Self) {
        ChunkCoord::linear(a.coord, b.coord, c.coord);
    }

    fn ranks_before(&self, other: &Self) -> (r: bool) {
        self.sq < other.sq || (self.sq == other.sq && self.coord.ranks_before(&other.coord))
    }
}

/// The greater of two numbers.
pub open spec fn at_least(a: int, b: int) -> int {
    if a >= b {
        a
    } else {
        b
    }
}

impl ChunkWindow {
    /// The tracked chunks; a chunk not in the map is unloaded.
    pub closed spec fn slots(&self) -> Map<ChunkCoord, Slot> {
        self.entries.map()
    }

    /// The full-detail radius.
    pub closed spec fn near(&self) -> int {
        self.near_radius as int
    }

    /// The outer, impostor radius.
    pub closed spec fn far(&self) -> int {
        self.far_radius as int
    }

    /// The number of loads dispatched per plan.
    pub closed spec fn budget(&self) -> int {
        self.load_budget as int
    }

    /// The bookkeeping is consistent.
    pub closed spec fn wf(&self) -> bool {
        &&& self.entries.wf()
        &&& 0 <= self.near_radius <= self.far_radius
        &&& self.evict_radius == self.far_radius + EVICT_HYSTERESIS
        &&& self.load_budget >= 1
    }

    /// What holds of a window: the near radius is not negative and within the far one,
    /// which leaves room for the evict radius; a plan may load; finitely many chunks
    /// are tracked.
    pub proof fn lemma_wf(&self)
        requires
            self.wf(),
        ensures
            0 <= self.near() <= self.far(),
            self.far() + EVICT_HYSTERESIS <= i32::MAX,
            self.budget() >= 1,
            self.slots().dom().finite(),
    {
        let keys = self.entries.keys();
        assert(self.slots().dom() =~= keys.to_set());
    }

    /// An empty window. The near radius is floored at zero, the far radius at the
    /// near radius, the budget at one.
    pub fn new(near_radius: i32, far_radius: i32, load_budget: usize) -> (r: Self)
        requires
            at_least(near_radius as int, far_radius as int) + EVICT_HYSTERESIS <= i32::MAX,
        ensures
            r.wf(),
            r.slots() == Map::<ChunkCoord, Slot>::empty(),
            r.near() == at_least(near_radius as int, 0),
            r.far() == at_least(far_radius as int, r.near()),
            r.budget() == at_least(load_budget as int, 1),
    {
        let near: i32 = if near_radius >= 0 {
            near_radius
        } else {
            0
        };
        let far: i32 = if far_radius >= near {
            far_radius
        } else {
            near
        };
        let budget: usize = if load_budget >= 1 {
            load_budget
        } else {
            1
        };
        let w = ChunkWindow {
            entries: CoordMap::new(),
            near_radius: near,
            far_radius: far,
            evict_radius: far + EVICT_HYSTERESIS,
            load_budget: budget,
        };
        w
    }

    /// The detail a chunk should be at, given its distance from the camera and
    /// the detail it is tracked at.
    fn target_detail(
        &self,
        c: ChunkCoord,
        camera: ChunkCoord,
        current: Option<ChunkDetail>,
    ) -> (r: ChunkDetail)
        ensures
            r == target(self.near_radius as int, self.far_radius as int, c, camera, current),
    {
        let d: i64 = c.chebyshev_distance(camera);
        let near: i64 = self.near_radius as i64;
        let is_near: bool = match current {
            Some(ChunkDetail::Near) => true,
            _ => false,
        };
        if d <= near {
            ChunkDetail::Near
        } else if is_near && (self.near_radius == self.far_radius || d <= near
            + DETAIL_HYSTERESIS as i64) {
            ChunkDetail::Near
        } else {
            ChunkDetail::Far
        }
    }

    /// Split the entries into those that stay and the coordinates that leave.
    fn drop_leavers(&mut self, camera: ChunkCoord) -> (to_evict: Vec<ChunkCoord>)
        requires
            old(self).wf(),
        ensures
            final(self).wf(),
            final(self).near_radius == old(self).near_radius,
            final(self).far_radius == old(self).far_radius,
            final(self).load_budget == old(self).load_budget,
            final(self).slots() == survivors(
                old(self).near(),
                old(self).far(),
                camera,
                old(self).slots(),
            ),
            evicts_leavers(old(self).slots(), final(self).slots(), to_evict@),
    {
        let ghost before = self.entries.map();
        let ghost keys = self.entries.keys();
        let ghost near = self.near();
        let ghost far = self.far();
        let mut kept: CoordMap<Slot> = CoordMap::new();
        let mut gone: Vec<ChunkCoord> = Vec::new();
        let mut i: usize = 0;
        while i < self.entries.len()
            invariant
                self.wf(),
                before == self.entries.map(),
                keys == self.entries.keys(),
                near == self.near_radius,
                far == self.far_radius,
                i <= keys.len(),
                kept.wf(),
                strictly_ascending(gone@),
                forall|k: int|
                    0 <= k < kept.keys().len() ==> {
                        &&& occurs(keys, i as int, #[trigger] kept.keys()[k])
                        &&& before.dom().contains(kept.keys()[k])
                        &&& kept.values()[k] == before[kept.keys()[k]]
                        &&& stays(near, far, camera, kept.keys()[k], kept.values()[k])
                    },
                forall|k: int|
                    0 <= k < gone@.len() ==> {
                        &&& occurs(keys, i as int, #[trigger] gone@[k])
                        &&& before.dom().contains(gone@[k])
                        &&& !stays(near, far, camera, gone@[k], before[gone@[k]])
                    },
                forall|j: int|
                    0 <= j < i ==> if stays(near, far, camera, #[trigger] keys[j], before[keys[j]]) {
                        kept.keys().contains(keys[j])
                    } else {
                        gone@.contains(keys[j])
                    },
            decreases keys.len() - i,
        {
            let (c, slot): (ChunkCoord, Slot) = self.entries.entry(i);
            let d: i64 = c.chebyshev_distance(camera);
            let fits: bool = d <= self.evict_radius as i64 && self.target_detail(
                c,
                camera,
                Some(slot.detail),
            ) == slot.detail;
            let ghost kept_was = kept.keys();
            let ghost values_was = kept.values();
            let ghost gone_was = gone@;
            assert(fits == stays(near, far, camera, c, before[c]));
            proof {
                assert forall|x: ChunkCoord| #[trigger] occurs(keys, i as int, x) implies ChunkCoord::ranks(
                    x,
                    c,
                ) && x != c && occurs(keys, i + 1, x) by {
                    let j = choose|j: int| 0 <= j < i && #[trigger] keys[j] == x;
                    assert(ChunkCoord::ranks(keys[j], keys[i as int]));
                }
                assert(keys[i as int] == c);
                assert(occurs(keys, i + 1, c));
            }
            if fits {
                kept.push_last(c, slot);
                assert(kept.keys()[kept_was.len() as int] == c);
            } else {
                gone.push(c);
                assert(gone@[gone_was.len() as int] == c);
            }
            proof {
                assert forall|k: int| 0 <= k < kept.keys().len() implies {
                    &&& occurs(keys, i + 1, #[trigger] kept.keys()[k])
                    &&& before.dom().contains(kept.keys()[k])
                    &&& kept.values()[k] == before[kept.keys()[k]]
                    &&& stays(near, far, camera, kept.keys()[k], kept.values()[k])
                } by {
                    if k < kept_was.len() {
                        assert(kept.keys()[k] == kept_was[k]);
                        assert(kept.values()[k] == values_was[k]);
                    }
                }
                assert forall|k: int| 0 <= k < gone@.len() implies {
                    &&& occurs(keys, i + 1, #[trigger] gone@[k])
                    &&& before.dom().contains(gone@[k])
                    &&& !stays(near, far, camera, gone@[k], before[gone@[k]])
                } by {
                    if k < gone_was.len() {
                        assert(gone@[k] == gone_was[k]);
                    }
                }
                assert forall|a: int, b: int|
                    0 <= a < b < gone@.len() implies #[trigger] ChunkCoord::ranks(gone@[a], gone@[b])
                    && gone@[a] != gone@[b] by {
                    if b < gone_was.len() {
                        assert(ChunkCoord::ranks(gone_was[a], gone_was[b]));
                    } else {
                        assert(occurs(keys, i as int, gone_was[a]));
                    }
                }
                assert forall|j: int| 0 <= j < i + 1 implies if stays(
                    near,
                    far,
                    camera,
                    #[trigger] keys[j],
                    before[keys[j]],
                ) {
                    kept.keys().contains(keys[j])
                } else {
                    gone@.contains(keys[j])
                } by {
                    if j < i {
                        if kept_was.contains(keys[j]) {
                            let k = choose|k: int| 0 <= k < kept_was.len() && kept_was[k] == keys[j];
                            assert(kept.keys()[k] == keys[j]);
                        }
                        if gone_was.contains(keys[j]) {
                            let k = choose|k: int| 0 <= k < gone_was.len() && gone_was[k] == keys[j];
                            assert(gone@[k] == keys[j]);
                        }
                    }
                }
            }
            i = i + 1;
        }
        self.entries = kept;
        proof {
            let after = kept.map();
            let stay = survivors(near, far, camera, before);
            assert forall|c: ChunkCoord| #[trigger] after.dom().contains(c) implies stay.dom().contains(
                c,
            ) && after[c] == stay[c] by {
                let k = choose|k: int| 0 <= k < kept.keys().len() && kept.keys()[k] == c;
                kept.lemma_entry(k);
            }
            assert forall|c: ChunkCoord| #[trigger] stay.dom().contains(c) implies after.dom().contains(
                c,
            ) by {
                let j = choose|j: int| 0 <= j < keys.len() && keys[j] == c;
                assert(kept.keys().contains(keys[j]));
            }
            assert(after.dom() =~= stay.dom());
            assert(after =~= stay);
            assert forall|c: ChunkCoord| #[trigger] gone@.contains(c) <==> before.dom().contains(c)
                && !stay.dom().contains(c) by {
                if before.dom().contains(c) && !stay.dom().contains(c) {
                    let j = choose|j: int| 0 <= j < keys.len() && keys[j] == c;
                    assert(gone@.contains(keys[j]));
                }
            }
        }
        gone
    }

    /// The untracked chunks within the far radius, row by row.
    fn candidates(&self, camera: ChunkCoord) -> (out: Vec<Candidate>)
        requires
            self.wf(),
            i32::MIN <= camera.x - self.far(),
            camera.x + self.far() <= i32::MAX,
            i32::MIN <= camera.z - self.far(),
            camera.z + self.far() <= i32::MAX,
        ensures
            out@.no_duplicates(),
            forall|i: int|
                0 <= i < out@.len() ==> wanted(
                    self.far(),
                    camera,
                    self.slots(),
                    (#[trigger] out@[i]).coord,
                ) && out@[i].sq == squared(out@[i].coord, camera),
            forall|c: ChunkCoord|
                #[trigger] wanted(self.far(), camera, self.slots(), c) ==> exists|i: int|
                    0 <= i < out@.len() && (#[trigger] out@[i]).coord == c,
    {
        let far: i32 = self.far_radius;
        let ghost known = self.slots();
        let mut out: Vec<Candidate> = Vec::new();
        let mut dz: i32 = -far;
        while dz <= far
            invariant
                self.wf(),
                known == self.slots(),
                far == self.far_radius,
                i32::MIN <= camera.x - far,
                camera.x + far <= i32::MAX,
                i32::MIN <= camera.z - far,
                camera.z + far <= i32::MAX,
                far <= i32::MAX - 2,
                -far <= dz <= far + 1,
                forall|i: int, j: int|
                    0 <= i < j < out@.len() ==> (#[trigger] out@[i]).coord != (#[trigger] out@[j]).coord,
                forall|i: int|
                    0 <= i < out@.len() ==> wanted(
                        far as int,
                        camera,
                        known,
                        (#[trigger] out@[i]).coord,
                    ) && out@[i].sq == squared(out@[i].coord, camera) && out@[i].coord.z < camera.z
                        + dz,
                forall|c: ChunkCoord|
                    #[trigger] wanted(far as int, camera, known, c) && c.z < camera.z + dz
                        ==> exists|i: int| 0 <= i < out@.len() && (#[trigger] out@[i]).coord == c,
            decreases far + 1 - dz,
        {
            let mut dx: i32 = -far;
            while dx <= far
                invariant
                    self.wf(),
                    known == self.slots(),
                    far == self.far_radius,
                    i32::MIN <= camera.x - far,
                    camera.x + far <= i32::MAX,
                    i32::MIN <= camera.z - far,
                    camera.z + far <= i32::MAX,
                    far <= i32::MAX - 2,
                    -far <= dz <= far,
                    -far <= dx <= far + 1,
                    forall|i: int, j: int|
                        0 <= i < j < out@.len() ==> (#[trigger] out@[i]).coord != (
                        #[trigger] out@[j]).coord,
                    forall|i: int|
                        0 <= i < out@.len() ==> wanted(
                            far as int,
                            camera,
                            known,
                            (#[trigger] out@[i]).coord,
                        ) && out@[i].sq == squared(out@[i].coord, camera) && (out@[i].coord.z
                            < camera.z + dz || (out@[i].coord.z == camera.z + dz && out@[i].coord.x
                            < camera.x + dx)),
                    forall|c: ChunkCoord|
                        #[trigger] wanted(far as int, camera, known, c) && (c.z < camera.z + dz || (
                        c.z == camera.z + dz && c.x < camera.x + dx)) ==> exists|i: int|
                            0 <= i < out@.len() && (#[trigger] out@[i]).coord == c,
                decreases far + 1 - dx,
            {
                let c: ChunkCoord = camera.offset(dx, dz);
                let ghost was = out@;
                if !self.entries.contains(c) {
                    assert(wanted(far as int, camera, known, c));
                    out.push(Candidate { sq: c.sq_distance(camera), coord: c });
                    assert(out@[was.len() as int].coord == c);
                }
                proof {
                    assert forall|k: ChunkCoord|
                        #[trigger] wanted(far as int, camera, known, k) && (k.z < camera.z + dz || (
                        k.z == camera.z + dz && k.x < camera.x + dx + 1)) implies exists|i: int|
                        0 <= i < out@.len() && (#[trigger] out@[i]).coord == k by {
                        if k != c {
                            let i = choose|i: int|
                                0 <= i < was.len() && (#[trigger] was[i]).coord == k;
                            assert(out@[i].coord == k);
                        }
                    }
                }
                dx = dx + 1;
            }
            proof {
                assert forall|k: ChunkCoord|
                    #[trigger] wanted(far as int, camera, known, k) && k.z < camera.z + dz
                        + 1 implies exists|i: int|
                    0 <= i < out@.len() && (#[trigger] out@[i]).coord == k by {
                    assert(k.x < camera.x + far + 1);
                }
            }
            dz = dz + 1;
        }
        proof {
            assert forall|c: ChunkCoord| #[trigger] wanted(far as int, camera, known, c) implies exists|
                i: int,
            | 0 <= i < out@.len() && (#[trigger] out@[i]).coord == c by {
                assert(c.z < camera.z + far + 1);
            }
            assert(out@.no_duplicates()) by {
                assert forall|i: int, j: int|
                    0 <= i < out@.len() && 0 <= j < out@.len() && i != j implies out@[i] != out@[j] by {
                    if i < j {
                        assert(out@[i].coord != out@[j].coord);
                    } else {
                        assert(out@[j].coord != out@[i].coord);
                    }
                }
            }
        }
        out
    }

    /// Track a chunk as pending.
    fn track(&mut self, c: ChunkCoord, detail: ChunkDetail)
        requires
            old(self).wf(),
            !old(self).slots().dom().contains(c),
        ensures
            final(self).wf(),
            final(self).near_radius == old(self).near_radius,
            final(self).far_radius == old(self).far_radius,
            final(self).load_budget == old(self).load_budget,
            final(self).slots() == old(self).slots().insert(
                c,
                Slot { state: ChunkState::Pending, detail },
            ),
    {
        self.entries.insert(c, Slot { state: ChunkState::Pending, detail });
    }

    /// Decide the loads and evictions for a camera in chunk `camera`.
    pub fn plan(&mut self, camera: ChunkCoord) -> (r: ChunkPlan)
        requires
            old(self).wf(),
            i32::MIN <= camera.x - old(self).far(),
            camera.x + old(self).far() <= i32::MAX,
            i32::MIN <= camera.z - old(self).far(),
            camera.z + old(self).far() <= i32::MAX,
        ensures
            final(self).wf(),
            final(self).near() == old(self).near(),
            final(self).far() == old(self).far(),
            final(self).budget() == old(self).budget(),
            is_plan(
                old(self).near(),
                old(self).far(),
                old(self).budget(),
                old(self).slots(),
                camera,
                r.to_load@,
                r.to_evict@,
                final(self).slots(),
            ),
    {
        let ghost near = self.near();
        let ghost far = self.far();
        let to_evict: Vec<ChunkCoord> = self.drop_leavers(camera);
        let ghost stay = self.slots();
        let found: Vec<Candidate> = self.candidates(camera);
        let order: Vec<Candidate> = sorted(&found);
        proof {
            found@.lemma_multiset_has_no_duplicates();
            order@.lemma_multiset_has_no_duplicates_conv();
            crate::order::lemma_ascending_distinct(order@);
            assert forall|i: int| 0 <= i < order@.len() implies wanted(
                far,
                camera,
                stay,
                (#[trigger] order@[i]).coord,
            ) && order@[i].sq == squared(order@[i].coord, camera) by {
                assert(order@.contains(order@[i]));
                assert(found@.contains(order@[i]));
            }
        }
        proof {
            assert forall|c: ChunkCoord| #[trigger] wanted(far, camera, stay, c) implies exists|f: int|
                0 <= f < found@.len() && (#[trigger] found@[f]).coord == c by {
                assert(wanted(self.far(), camera, self.slots(), c));
            }
        }
        let n: usize = if order.len() <= self.load_budget {
            order.len()
        } else {
            self.load_budget
        };
        let mut to_load: Vec<(ChunkCoord, ChunkDetail)> = Vec::new();
        let mut i: usize = 0;
        while i < n
            invariant
                self.wf(),
                near == self.near_radius,
                far == self.far_radius,
                i <= n <= order@.len(),
                strictly_ascending(order@),
                forall|k: int|
                    0 <= k < order@.len() ==> wanted(far, camera, stay, (#[trigger] order@[k]).coord)
                        && order@[k].sq == squared(order@[k].coord, camera),
                to_load@.len() == i,
                forall|k: int|
                    0 <= k < i ==> (#[trigger] to_load@[k]).0 == order@[k].coord && to_load@[k].1
                        == target(near, far, order@[k].coord, camera, None),
                after_loads(stay, to_load@, self.slots()),
                self.load_budget == old(self).load_budget,
            decreases n - i,
        {
            let c: ChunkCoord = order[i].coord;
            let detail: ChunkDetail = self.target_detail(c, camera, None);
            let ghost loaded_was = to_load@;
            let ghost tracked_was = self.slots();
            proof {
                assert(!loads(loaded_was, c)) by {
                    if loads(loaded_was, c) {
                        let k = choose|k: int|
                            0 <= k < loaded_was.len() && (#[trigger] loaded_was[k]).0 == c;
                        assert(Candidate::ranks(order@[k], order@[i as int]));
                        assert(order@[k].coord == order@[i as int].coord);
                    }
                }
            }
            self.track(c, detail);
            to_load.push((c, detail));
            proof {
                assert(to_load@[i as int].0 == c);
                assert forall|k: ChunkCoord| #[trigger] self.slots().dom().contains(k)
                    <==> stay.dom().contains(k) || loads(to_load@, k) by {
                    if loads(loaded_was, k) {
                        let p = choose|p: int|
                            0 <= p < loaded_was.len() && (#[trigger] loaded_was[p]).0 == k;
                        assert(to_load@[p].0 == k);
                    }
                    if loads(to_load@, k) && k != c {
                        let p = choose|p: int|
                            0 <= p < to_load@.len() && (#[trigger] to_load@[p]).0 == k;
                        assert(loaded_was[p].0 == k);
                    }
                    assert(tracked_was.dom().contains(k) <==> stay.dom().contains(k) || loads(
                        loaded_was,
                        k,
                    ));
                }
                assert forall|k: int| 0 <= k < to_load@.len() implies self.slots()[(
                #[trigger] to_load@[k]).0] == (Slot {
                    state: ChunkState::Pending,
                    detail: to_load@[k].1,
                }) by {
                    if k < i {
                        assert(loaded_was[k] == to_load@[k]);
                        assert(loads(loaded_was, to_load@[k].0));
                    }
                }
            }
            i = i + 1;
        }
        proof {
            assert forall|a: int, b: int| 0 <= a < b < to_load@.len() implies nearer(
                camera,
                (#[trigger] to_load@[a]).0,
                (#[trigger] to_load@[b]).0,
            ) by {
                assert(Candidate::ranks(order@[a], order@[b]) && order@[a] != order@[b]);
            }
            assert forall|c: ChunkCoord|
                #[trigger] wanted(far, camera, stay, c) && !loads(to_load@, c) implies to_load@.len()
                == self.load_budget && forall|k: int|
                0 <= k < to_load@.len() ==> nearer(camera, (#[trigger] to_load@[k]).0, c) by {
                let f = choose|f: int| 0 <= f < found@.len() && (#[trigger] found@[f]).coord == c;
                assert(found@.contains(found@[f]));
                assert(order@.contains(found@[f]));
                let o = choose|o: int| 0 <= o < order@.len() && order@[o] == found@[f];
                if o < n {
                    assert(to_load@[o].0 == c);
                }
                assert forall|k: int| 0 <= k < to_load@.len() implies nearer(
                    camera,
                    (#[trigger] to_load@[k]).0,
                    c,
                ) by {
                    assert(Candidate::ranks(order@[k], order@[o]) && order@[k] != order@[o]);
                }
            }
        }
        ChunkPlan { to_load, to_evict }
    }

    /// Mark a dispatched chunk resident; a chunk no longer tracked stays so.
    pub fn mark_resident(&mut self, coord: ChunkCoord)
        requires
            old(self).wf(),
        ensures
            final(self).wf(),
            final(self).near() == old(self).near(),
            final(self).far() == old(self).far(),
            final(self).budget() == old(self).budget(),
            final(self).slots() == if old(self).slots().dom().contains(coord) {
                old(self).slots().insert(
                    coord,
                    Slot {
                        state: ChunkState::Resident,
                        detail: old(self).slots()[coord].detail,
                    },
                )
            } else {
                old(self).slots()
            },
            same_details(old(self).slots(), final(self).slots()),
    {
        match self.entries.get(coord) {
            Some(slot) => {
                self.entries.insert(
                    coord,
                    Slot { state: ChunkState::Resident, detail: slot.detail },
                );
            },
            None => {},
        }
        assert(self.slots().dom() =~= old(self).slots().dom());
    }

    /// Drop a chunk from tracking so that a later plan dispatches it again.
    pub fn forget(&mut self, coord: ChunkCoord)
        requires
            old(self).wf(),
        ensures
            final(self).wf(),
            final(self).near() == old(self).near(),
            final(self).far() == old(self).far(),
            final(self).budget() == old(self).budget(),
            final(self).slots() == old(self).slots().remove(coord),
    {
        let _ = self.entries.remove(coord);
    }

    /// Whether the window tracks a chunk.
    pub fn is_tracked(&self, coord: ChunkCoord) -> (r: bool)
        requires
            self.wf(),
        ensures
            r == self.slots().dom().contains(coord),
    {
        self.entries.contains(coord)
    }

    /// The numbers of resident and pending chunks.
    pub fn counts(&self) -> (r: (usize, usize))
        requires
            self.wf(),
        ensures
            r.0 == in_state(self.slots(), ChunkState::Resident).len(),
            r.1 == in_state(self.slots(), ChunkState::Pending).len(),
    {
        let mut resident: usize = 0;
        let mut pending: usize = 0;
        let ghost mut res: Seq<ChunkCoord> = Seq::empty();
        let ghost mut pen: Seq<ChunkCoord> = Seq::empty();
        let mut i: usize = 0;
        while i < self.entries.len()
            invariant
                self.wf(),
                i <= self.entries.keys().len(),
                resident == res.len(),
                pending == pen.len(),
                resident + pending == i,
                lists(self.entries, i as int, res, |s: Slot| s.state == ChunkState::Resident),
                lists(self.entries, i as int, pen, |s: Slot| s.state == ChunkState::Pending),
            decreases self.entries.keys().len() - i,
        {
            let e: (ChunkCoord, Slot) = self.entries.entry(i);
            match e.1.state {
                ChunkState::Resident => {
                    resident = resident + 1;
                    proof {
                        lemma_lists_more(
                            self.entries,
                            i as int,
                            res,
                            |s: Slot| s.state == ChunkState::Resident,
                        );
                        lemma_lists_skip(
                            self.entries,
                            i as int,
                            pen,
                            |s: Slot| s.state == ChunkState::Pending,
                        );
                        res = res.push(e.0);
                    }
                },
                ChunkState::Pending => {
                    pending = pending + 1;
                    proof {
                        lemma_lists_more(
                            self.entries,
                            i as int,
                            pen,
                            |s: Slot| s.state == ChunkState::Pending,
                        );
                        lemma_lists_skip(
                            self.entries,
                            i as int,
                            res,
                            |s: Slot| s.state == ChunkState::Resident,
                        );
                        pen = pen.push(e.0);
                    }
                },
            }
            i = i + 1;
        }
        proof {
            lemma_lists_len(self.entries, res, |s: Slot| s.state == ChunkState::Resident);
            lemma_lists_len(self.entries, pen, |s: Slot| s.state == ChunkState::Pending);
            assert(matching(self.entries.map(), |s: Slot| s.state == ChunkState::Resident) =~= in_state(
                self.slots(),
                ChunkState::Resident,
            ));
            assert(matching(self.entries.map(), |s: Slot| s.state == ChunkState::Pending) =~= in_state(
                self.slots(),
                ChunkState::Pending,
            ));
        }
        (resident, pending)
    }

    /// The numbers of resident full-detail chunks and resident impostors.
    pub fn counts_by_detail(&self) -> (r: (usize, usize))
        requires
            self.wf(),
        ensures
            r.0 == resident_at(self.slots(), ChunkDetail::Near).len(),
            r.1 == resident_at(self.slots(), ChunkDetail::Far).len(),
    {
        let mut near: usize = 0;
        let mut far: usize = 0;
        let ghost near_pred = |s: Slot|
            s.state == ChunkState::Resident && s.detail == ChunkDetail::Near;
        let ghost far_pred = |s: Slot|
            s.state == ChunkState::Resident && s.detail == ChunkDetail::Far;
        let ghost mut ns: Seq<ChunkCoord> = Seq::empty();
        let ghost mut fs: Seq<ChunkCoord> = Seq::empty();
        let mut i: usize = 0;
        while i < self.entries.len()
            invariant
                self.wf(),
                i <= self.entries.keys().len(),
                near == ns.len(),
                far == fs.len(),
                near + far <= i,
                near_pred == (|s: Slot|
                    s.state == ChunkState::Resident && s.detail == ChunkDetail::Near),
                far_pred == (|s: Slot|
                    s.state == ChunkState::Resident && s.detail == ChunkDetail::Far),
                lists(self.entries, i as int, ns, near_pred),
                lists(self.entries, i as int, fs, far_pred),
            decreases self.entries.keys().len() - i,
        {
            let e: (ChunkCoord, Slot) = self.entries.entry(i);
            proof {
                if near_pred(e.1) {
                    lemma_lists_more(self.entries, i as int, ns, near_pred);
                } else {
                    lemma_lists_skip(self.entries, i as int, ns, near_pred);
                }
                if far_pred(e.1) {
                    lemma_lists_more(self.entries, i as int, fs, far_pred);
                } else {
                    lemma_lists_skip(self.entries, i as int, fs, far_pred);
                }
            }
            if e.1.state == ChunkState::Resident {
                match e.1.detail {
                    ChunkDetail::Near => {
                        near = near + 1;
                        proof {
                            ns = ns.push(e.0);
                        }
                    },
                    ChunkDetail::Far => {
                        far = far + 1;
                        proof {
                            fs = fs.push(e.0);
                        }
                    },
                }
            }
            i = i + 1;
        }
        proof {
            lemma_lists_len(self.entries, ns, near_pred);
            lemma_lists_len(self.entries, fs, far_pred);
            assert(matching(self.entries.map(), near_pred) =~= resident_at(
                self.slots(),
                ChunkDetail::Near,
            ));
            assert(matching(self.entries.map(), far_pred) =~= resident_at(
                self.slots(),
                ChunkDetail::Far,
            ));
        }
        (near, far)
    }
}

/// One of the first `n` keys is `c`.
spec fn occurs(keys: Seq<ChunkCoord>, n: int, c: ChunkCoord) -> bool {
    exists|j: int| 0 <= j < n && #[trigger] keys[j] == c
}

/// The tracked chunks whose slot satisfies a predicate.
spec fn matching(slots: Map<ChunkCoord, Slot>, p: spec_fn(Slot) -> bool) -> Set<ChunkCoord> {
    Set::new(|c: ChunkCoord| slots.dom().contains(c) && p(slots[c]))
}

/// `out` lists, once each, the matching keys among the first `n`.
spec fn lists(
    entries: CoordMap<Slot>,
    n: int,
    out: Seq<ChunkCoord>,
    p: spec_fn(Slot) -> bool,
) -> bool {
    &&& out.no_duplicates()
    &&& forall|k: int|
        0 <= k < out.len() ==> occurs(entries.keys(), n, #[trigger] out[k]) && p(
            entries.map()[out[k]],
        )
    &&& forall|i: int|
        0 <= i < n && p(entries.map()[#[trigger] entries.keys()[i]]) ==> out.contains(
            entries.keys()[i],
        )
}

proof fn lemma_lists_more(
    entries: CoordMap<Slot>,
    n: int,
    out: Seq<ChunkCoord>,
    p: spec_fn(Slot) -> bool,
)
    requires
        entries.wf(),
        0 <= n < entries.keys().len(),
        lists(entries, n, out, p),
        p(entries.map()[entries.keys()[n]]),
    ensures
        lists(entries, n + 1, out.push(entries.keys()[n]), p),
{
    let keys = entries.keys();
    let more = out.push(keys[n]);
    assert forall|k: int| 0 <= k < out.len() implies out[k] != keys[n] by {
        assert(occurs(keys, n, out[k]));
        let i = choose|i: int| 0 <= i < n && #[trigger] keys[i] == out[k];
        assert(ChunkCoord::ranks(keys[i], keys[n]));
    }
    assert(more.no_duplicates());
    assert forall|k: int| 0 <= k < more.len() implies occurs(keys, n + 1, #[trigger] more[k]) && p(
        entries.map()[more[k]],
    ) by {
        if k < out.len() {
            assert(more[k] == out[k] && occurs(keys, n, out[k]));
            let i = choose|i: int| 0 <= i < n && #[trigger] keys[i] == out[k];
            assert(keys[i] == more[k]);
        } else {
            assert(keys[n] == more[k]);
        }
    }
    assert forall|i: int| 0 <= i < n + 1 && p(entries.map()[#[trigger] keys[i]]) implies more.contains(
        keys[i],
    ) by {
        if i < n {
            let k = choose|k: int| 0 <= k < out.len() && out[k] == keys[i];
            assert(more[k] == keys[i]);
        } else {
            assert(more[out.len() as int] == keys[n]);
        }
    }
}

proof fn lemma_lists_skip(
    entries: CoordMap<Slot>,
    n: int,
    out: Seq<ChunkCoord>,
    p: spec_fn(Slot) -> bool,
)
    requires
        0 <= n < entries.keys().len(),
        lists(entries, n, out, p),
        !p(entries.map()[entries.keys()[n]]),
    ensures
        lists(entries, n + 1, out, p),
{
    let keys = entries.keys();
    assert forall|k: int| 0 <= k < out.len() implies occurs(keys, n + 1, #[trigger] out[k]) && p(
        entries.map()[out[k]],
    ) by {
        let i = choose|i: int| 0 <= i < n && #[trigger] keys[i] == out[k];
        assert(keys[i] == out[k]);
    }
}

proof fn lemma_lists_len(entries: CoordMap<Slot>, out: Seq<ChunkCoord>, p: spec_fn(Slot) -> bool)
    requires
        entries.wf(),
        lists(entries, entries.keys().len() as int, out, p),
    ensures
        matching(entries.map(), p).len() == out.len(),
{
    out.unique_seq_to_set();
    let keys = entries.keys();
    assert forall|c: ChunkCoord| out.to_set().contains(c) <==> matching(entries.map(), p).contains(
        c,
    ) by {
        if out.contains(c) {
            let k = choose|k: int| 0 <= k < out.len() && out[k] == c;
            assert(occurs(keys, keys.len() as int, out[k]));
        }
        if matching(entries.map(), p).contains(c) {
            let i = choose|i: int| 0 <= i < keys.len() && keys[i] == c;
            assert(p(entries.map()[keys[i]]));
        }
    }
    assert(out.to_set() =~= matching(entries.map(), p));
}

/// After a plan every tracked chunk is within the evict radius of the camera, and
/// at the detail that its distance calls for.
pub proof fn law_plan_confines(
    near: int,
    far: int,
    budget: int,
    before: Map<ChunkCoord, Slot>,
    camera: ChunkCoord,
    to_load: Seq<(ChunkCoord, ChunkDetail)>,
    to_evict: Seq<ChunkCoord>,
    after: Map<ChunkCoord, Slot>,
)
    requires
        0 <= near <= far,
        is_plan(near, far, budget, before, camera, to_load, to_evict, after),
    ensures
        forall|c: ChunkCoord| #[trigger]
            after.dom().contains(c) ==> stays(near, far, camera, c, after[c]),
{
    let stay = survivors(near, far, camera, before);
    assert forall|c: ChunkCoord| #[trigger] after.dom().contains(c) implies stays(
        near,
        far,
        camera,
        c,
        after[c],
    ) by {
        if stay.dom().contains(c) {
            assert(after[c] == stay[c]);
        } else {
            let i = choose|i: int| 0 <= i < to_load.len() && (#[trigger] to_load[i]).0 == c;
            assert(wanted(far, camera, stay, to_load[i].0));
        }
    }
}

/// After a plan at most as many chunks are tracked as the evict window has room
/// for.
pub proof fn law_plan_fits_window(
    near: int,
    far: int,
    budget: int,
    before: Map<ChunkCoord, Slot>,
    camera: ChunkCoord,
    to_load: Seq<(ChunkCoord, ChunkDetail)>,
    to_evict: Seq<ChunkCoord>,
    after: Map<ChunkCoord, Slot>,
)
    requires
        0 <= near <= far,
        is_plan(near, far, budget, before, camera, to_load, to_evict, after),
    ensures
        after.dom().finite(),
        after.dom().len() <= (2 * (far + EVICT_HYSTERESIS) + 1) * (2 * (far + EVICT_HYSTERESIS) + 1),
{
    law_plan_confines(near, far, budget, before, camera, to_load, to_evict, after);
    let e = far + EVICT_HYSTERESIS;
    let room = block(camera.x - e, camera.x + e + 1, camera.z - e, camera.z + e + 1);
    crate::chunk_coord::lemma_block_len(
        camera.x - e,
        camera.x + e + 1,
        camera.z - e,
        camera.z + e + 1,
    );
    assert forall|c: ChunkCoord| after.dom().contains(c) implies room.contains(c) by {
        assert(stays(near, far, camera, c, after[c]));
    }
    assert(after.dom().subset_of(room));
    vstd::set_lib::lemma_len_subset(after.dom(), room);
}

/// The tracked chunks at a given detail, resident or pending.
pub open spec fn tracked_at(slots: Map<ChunkCoord, Slot>, detail: ChunkDetail) -> Set<ChunkCoord> {
    Set::new(|c: ChunkCoord| slots.dom().contains(c) && slots[c].detail == detail)
}

/// The tracked full-detail chunks within a distance of the camera.
pub open spec fn full_within(
    slots: Map<ChunkCoord, Slot>,
    camera: ChunkCoord,
    radius: int,
) -> Set<ChunkCoord> {
    Set::new(
        |c: ChunkCoord|
            tracked_at(slots, ChunkDetail::Near).contains(c) && chebyshev(c, camera) <= radius,
    )
}

/// After a plan the full-detail chunks within one ring past the near radius are no more
/// than that square has room for, and where the far band is not empty there are no others.
/// Full-detail chunks and impostors are together all that is tracked.
pub proof fn law_full_detail_fits_near_band(
    near: int,
    far: int,
    budget: int,
    before: Map<ChunkCoord, Slot>,
    camera: ChunkCoord,
    to_load: Seq<(ChunkCoord, ChunkDetail)>,
    to_evict: Seq<ChunkCoord>,
    after: Map<ChunkCoord, Slot>,
)
    requires
        0 <= near <= far,
        is_plan(near, far, budget, before, camera, to_load, to_evict, after),
    ensures
        ({
            let e = near + DETAIL_HYSTERESIS;
            let full = tracked_at(after, ChunkDetail::Near);
            let impostors = tracked_at(after, ChunkDetail::Far);
            &&& full_within(after, camera, e).finite()
            &&& full_within(after, camera, e).len() <= (2 * e + 1) * (2 * e + 1)
            &&& near < far ==> full == full_within(after, camera, e)
            &&& full.finite() && impostors.finite()
            &&& full.len() + impostors.len() == after.dom().len()
        }),
{
    law_plan_confines(near, far, budget, before, camera, to_load, to_evict, after);
    law_plan_fits_window(near, far, budget, before, camera, to_load, to_evict, after);
    let e = near + DETAIL_HYSTERESIS;
    let full = tracked_at(after, ChunkDetail::Near);
    let impostors = tracked_at(after, ChunkDetail::Far);
    let close = full_within(after, camera, e);
    let room = block(camera.x - e, camera.x + e + 1, camera.z - e, camera.z + e + 1);
    crate::chunk_coord::lemma_block_len(
        camera.x - e,
        camera.x + e + 1,
        camera.z - e,
        camera.z + e + 1,
    );
    assert(close.subset_of(room));
    vstd::set_lib::lemma_len_subset(close, room);
    if near < far {
        assert forall|c: ChunkCoord| full.contains(c) implies close.contains(c) by {
            assert(stays(near, far, camera, c, after[c]));
        }
        assert(full =~= close);
    }
    assert(full =~= after.dom().filter(|c: ChunkCoord| full.contains(c)));
    assert(impostors =~= after.dom().filter(|c: ChunkCoord| impostors.contains(c)));
    assert(full.union(impostors) =~= after.dom());
    vstd::set_lib::lemma_set_disjoint_lens(full, impostors);
}

/// A second plan at the same place evicts nothing, loads nothing that is tracked,
/// and loads nothing at all where the first one did not use up its budget, whichever
/// loads became resident in between.
pub proof fn law_plan_settles(
    near: int,
    far: int,
    budget: int,
    before: Map<ChunkCoord, Slot>,
    camera: ChunkCoord,
    load1: Seq<(ChunkCoord, ChunkDetail)>,
    evict1: Seq<ChunkCoord>,
    planned: Map<ChunkCoord, Slot>,
    marked: Map<ChunkCoord, Slot>,
    load2: Seq<(ChunkCoord, ChunkDetail)>,
    evict2: Seq<ChunkCoord>,
    after: Map<ChunkCoord, Slot>,
)
    requires
        0 <= near <= far,
        is_plan(near, far, budget, before, camera, load1, evict1, planned),
        same_details(planned, marked),
        is_plan(near, far, budget, marked, camera, load2, evict2, after),
    ensures
        evict2.len() == 0,
        forall|i: int|
            0 <= i < load2.len() ==> !marked.dom().contains((#[trigger] load2[i]).0),
        load1.len() < budget ==> load2.len() == 0,
{
    law_plan_confines(near, far, budget, before, camera, load1, evict1, planned);
    let stay1 = survivors(near, far, camera, before);
    let stay2 = survivors(near, far, camera, marked);
    assert forall|c: ChunkCoord| #[trigger] marked.dom().contains(c) implies stays(
        near,
        far,
        camera,
        c,
        marked[c],
    ) by {
        assert(planned.dom().contains(c));
    }
    if evict2.len() > 0 {
        assert(evict2.contains(evict2[0]));
        assert(marked.dom().contains(evict2[0]));
    }
    assert forall|i: int| 0 <= i < load2.len() implies !marked.dom().contains(
        (#[trigger] load2[i]).0,
    ) by {
        let c = load2[i].0;
        assert(wanted(far, camera, stay2, c));
        if marked.dom().contains(c) {
            assert(stays(near, far, camera, c, marked[c]));
        }
    }
    if load1.len() < budget && load2.len() > 0 {
        let c = load2[0].0;
        assert(wanted(far, camera, stay2, c));
        assert(!marked.dom().contains(c));
        assert(!planned.dom().contains(c));
        assert(wanted(far, camera, stay1, c));
        assert(loads(load1, c));
    }
}

/// Marking chunks resident, any number of times, keeps the tracked chunks and their
/// details.
pub proof fn law_marking_keeps_details(
    a: Map<ChunkCoord, Slot>,
    b: Map<ChunkCoord, Slot>,
    c: Map<ChunkCoord, Slot>,
)
    requires
        same_details(a, b),
        same_details(b, c),
    ensures
        same_details(a, a),
        same_details(a, c),
{
    assert forall|k: ChunkCoord| #[trigger] a.dom().contains(k) implies a[k].detail
        == c[k].detail by {
        assert(b.dom().contains(k));
    }
}

/// Nothing is both kept and evicted, and a chunk is evicted and loaded in one
/// plan only to change its detail.
pub proof fn law_reload_changes_detail(
    near: int,
    far: int,
    budget: int,
    before: Map<ChunkCoord, Slot>,
    camera: ChunkCoord,
    to_load: Seq<(ChunkCoord, ChunkDetail)>,
    to_evict: Seq<ChunkCoord>,
    after: Map<ChunkCoord, Slot>,
    i: int,
)
    requires
        0 <= near <= far,
        is_plan(near, far, budget, before, camera, to_load, to_evict, after),
        0 <= i < to_load.len(),
        to_evict.contains(to_load[i].0),
    ensures
        before[to_load[i].0].detail != to_load[i].1,
{
    let c = to_load[i].0;
    assert(wanted(far, camera, survivors(near, far, camera, before), c));
}

/// Progress: while a chunk of the window is missing, a plan loads at least one.
pub proof fn law_plan_progresses(
    near: int,
    far: int,
    budget: int,
    before: Map<ChunkCoord, Slot>,
    camera: ChunkCoord,
    to_load: Seq<(ChunkCoord, ChunkDetail)>,
    to_evict: Seq<ChunkCoord>,
    after: Map<ChunkCoord, Slot>,
    missing: ChunkCoord,
)
    requires
        budget >= 1,
        is_plan(near, far, budget, before, camera, to_load, to_evict, after),
        chebyshev(missing, camera) <= far,
        !before.dom().contains(missing),
    ensures
        to_load.len() >= 1,
{
    let stay = survivors(near, far, camera, before);
    assert(wanted(far, camera, stay, missing));
    if to_load.len() == 0 {
        assert(!loads(to_load, missing));
    }
}

/// With equal radii there are no impostors: everything a plan loads is at full
/// detail.
pub proof fn law_equal_radii_load_full_detail(
    radius: int,
    budget: int,
    before: Map<ChunkCoord, Slot>,
    camera: ChunkCoord,
    to_load: Seq<(ChunkCoord, ChunkDetail)>,
    to_evict: Seq<ChunkCoord>,
    after: Map<ChunkCoord, Slot>,
)
    requires
        is_plan(radius, radius, budget, before, camera, to_load, to_evict, after),
    ensures
        forall|i: int|
            0 <= i < to_load.len() ==> (#[trigger] to_load[i]).1 == ChunkDetail::Near,
{
    assert forall|i: int| 0 <= i < to_load.len() implies (#[trigger] to_load[i]).1
        == ChunkDetail::Near by {
        assert(wanted(radius, camera, survivors(radius, radius, camera, before), to_load[i].0));
    }
}

/// With equal radii the window has a single detail: chunks tracked at full detail
/// stay so, and a tracked chunk is evicted exactly when its distance exceeds the evict
/// radius.
pub proof fn law_equal_radii_retain(
    radius: int,
    budget: int,
    before: Map<ChunkCoord, Slot>,
    camera: ChunkCoord,
    to_load: Seq<(ChunkCoord, ChunkDetail)>,
    to_evict: Seq<ChunkCoord>,
    after: Map<ChunkCoord, Slot>,
)
    requires
        is_plan(radius, radius, budget, before, camera, to_load, to_evict, after),
        forall|c: ChunkCoord| #[trigger]
            before.dom().contains(c) ==> before[c].detail == ChunkDetail::Near,
    ensures
        forall|c: ChunkCoord| #[trigger]
            after.dom().contains(c) ==> after[c].detail == ChunkDetail::Near,
        forall|c: ChunkCoord| #[trigger]
            to_evict.contains(c) <==> before.dom().contains(c) && chebyshev(c, camera) > radius
                + EVICT_HYSTERESIS,
{
    let stay = survivors(radius, radius, camera, before);
    law_equal_radii_load_full_detail(radius, budget, before, camera, to_load, to_evict, after);
    assert forall|c: ChunkCoord| #[trigger] after.dom().contains(c) implies after[c].detail
        == ChunkDetail::Near by {
        if stay.dom().contains(c) {
            assert(before.dom().contains(c));
        } else {
            assert(loads(to_load, c));
        }
    }
    assert forall|c: ChunkCoord| #[trigger] to_evict.contains(c) <==> before.dom().contains(c)
        && chebyshev(c, camera) > radius + EVICT_HYSTERESIS by {
        assert(before.dom().contains(c) ==> (stay.dom().contains(c) <==> stays(
            radius,
            radius,
            camera,
            c,
            before[c],
        )));
    }
}

/// The counts add up: every tracked chunk is resident or pending, and every resident
/// one is at full detail or an impostor.
pub proof fn law_counts_add_up(slots: Map<ChunkCoord, Slot>)
    requires
        slots.dom().finite(),
    ensures
        in_state(slots, ChunkState::Resident).len() + in_state(slots, ChunkState::Pending).len()
            == slots.dom().len(),
        resident_at(slots, ChunkDetail::Near).len() + resident_at(slots, ChunkDetail::Far).len()
            == in_state(slots, ChunkState::Resident).len(),
{
    let resident = in_state(slots, ChunkState::Resident);
    let pending = in_state(slots, ChunkState::Pending);
    let near = resident_at(slots, ChunkDetail::Near);
    let far = resident_at(slots, ChunkDetail::Far);
    assert(resident =~= slots.dom().filter(|c: ChunkCoord| resident.contains(c)));
    assert(pending =~= slots.dom().filter(|c: ChunkCoord| pending.contains(c)));
    assert(near =~= slots.dom().filter(|c: ChunkCoord| near.contains(c)));
    assert(far =~= slots.dom().filter(|c: ChunkCoord| far.contains(c)));
    assert(resident.union(pending) =~= slots.dom());
    vstd::set_lib::lemma_set_disjoint_lens(resident, pending);
    assert(near.union(far) =~= resident);
    vstd::set_lib::lemma_set_disjoint_lens(near, far);
}

/// The detail of a chunk goes by its distance: full up to the near radius, an impostor beyond
/// the ring past it, and within that ring what it was; where the far band is empty a chunk at
/// full detail keeps it.
pub proof fn law_detail_goes_by_distance(
    near: int,
    far: int,
    c: ChunkCoord,
    camera: ChunkCoord,
    current: Option<ChunkDetail>,
)
    ensures
        chebyshev(c, camera) <= near ==> target(near, far, c, camera, current)
            == ChunkDetail::Near,
        chebyshev(c, camera) > near && current is None ==> target(near, far, c, camera, current)
            == ChunkDetail::Far,
        chebyshev(c, camera) > near && current == Some(ChunkDetail::Far) ==> target(
            near,
            far,
            c,
            camera,
            current,
        ) == ChunkDetail::Far,
        chebyshev(c, camera) == near + 1 && current == Some(ChunkDetail::Near) ==> target(
            near,
            far,
            c,
            camera,
            current,
        ) == ChunkDetail::Near,
        chebyshev(c, camera) > near + 1 && near != far && current == Some(ChunkDetail::Near)
            ==> target(near, far, c, camera, current) == ChunkDetail::Far,
        near == far && current == Some(ChunkDetail::Near) ==> target(
            near,
            far,
            c,
            camera,
            current,
        ) == ChunkDetail::Near,
{
}

/// A tracked chunk more than two chunks past the far radius goes; one within that stays as
/// long as it is at the detail that its distance calls for.
pub proof fn law_chunks_stay_within_two_past_the_far_radius(
    near: int,
    far: int,
    camera: ChunkCoord,
    c: ChunkCoord,
    slots: Map<ChunkCoord, Slot>,
)
    requires
        slots.dom().contains(c),
    ensures
        chebyshev(c, camera) > far + 2 ==> !survivors(near, far, camera, slots).dom().contains(c),
        chebyshev(c, camera) <= far + 2 && target(near, far, c, camera, Some(slots[c].detail))
            == slots[c].detail ==> survivors(near, far, camera, slots).dom().contains(c)
            && survivors(near, far, camera, slots)[c] == slots[c],
        chebyshev(c, camera) <= near && slots[c].detail == ChunkDetail::Near && near <= far
            ==> survivors(near, far, camera, slots).dom().contains(c),
        chebyshev(c, camera) <= near && slots[c].detail == ChunkDetail::Far ==> !survivors(
            near,
            far,
            camera,
            slots,
        ).dom().contains(c),
{
}

/// Chunks load from the camera outwards: the camera's own before any other, and of two the one
/// with the shorter straight line to the camera.
pub proof fn law_nearer_chunks_load_first(camera: ChunkCoord, a: ChunkCoord, b: ChunkCoord)
    ensures
        (a.x - camera.x) * (a.x - camera.x) + (a.z - camera.z) * (a.z - camera.z) < (b.x - camera.x)
            * (b.x - camera.x) + (b.z - camera.z) * (b.z - camera.z) ==> nearer(camera, a, b)
            && !nearer(camera, b, a),
        a != b ==> nearer(camera, a, b) || nearer(camera, b, a),
        !(nearer(camera, a, b) && nearer(camera, b, a)),
        a.x == b.x && a.z < b.z && squared(a, camera) == squared(b, camera) ==> nearer(camera, a, b),
        a.x < b.x && squared(a, camera) == squared(b, camera) ==> nearer(camera, a, b),
{
}

/// What a plan loads is new to the window, within the far radius, pending, and as detailed as
/// its distance calls for; what it neither loads nor evicts is as it was.
pub proof fn law_plan_changes_only_what_it_says(
    near: int,
    far: int,
    budget: int,
    before: Map<ChunkCoord, Slot>,
    camera: ChunkCoord,
    to_load: Seq<(ChunkCoord, ChunkDetail)>,
    to_evict: Seq<ChunkCoord>,
    after: Map<ChunkCoord, Slot>,
    c: ChunkCoord,
    i: int,
)
    requires
        is_plan(near, far, budget, before, camera, to_load, to_evict, after),
    ensures
        0 <= i < to_load.len() ==> {
            let l = to_load[i].0;
            &&& chebyshev(l, camera) <= far
            &&& !before.dom().contains(l) || to_evict.contains(l)
            &&& after.dom().contains(l)
            &&& after[l].state == ChunkState::Pending
            &&& after[l].detail == to_load[i].1
            &&& to_load[i].1 == ChunkDetail::Near <==> chebyshev(l, camera) <= near
        },
        to_load.len() <= budget,
        before.dom().contains(c) && !to_evict.contains(c) ==> after.dom().contains(c) && after[c]
            == before[c],
        !before.dom().contains(c) && !loads(to_load, c) ==> !after.dom().contains(c),
        to_evict.contains(c) ==> before.dom().contains(c),
        to_evict.contains(c) && !loads(to_load, c) ==> !after.dom().contains(c),
{
    let stay = survivors(near, far, camera, before);
    if 0 <= i < to_load.len() {
        let l = to_load[i].0;
        assert(wanted(far, camera, stay, to_load[i].0));
        assert(to_evict.contains(l) <==> before.dom().contains(l) && !stay.dom().contains(l));
        assert(after.dom().contains(l) <==> stay.dom().contains(l) || loads(to_load, l));
        assert(loads(to_load, l));
    }
    assert(to_evict.contains(c) <==> before.dom().contains(c) && !stay.dom().contains(c));
    assert(after.dom().contains(c) <==> stay.dom().contains(c) || loads(to_load, c));
}

/// The greater of two numbers is one of them, and neither is above it.
pub proof fn law_floor_lifts_what_is_below(a: int, b: int)
    ensures
        a <= at_least(a, b),
        b <= at_least(a, b),
        at_least(a, b) == a || at_least(a, b) == b,
{
}

} // verus!
