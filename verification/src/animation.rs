//! Skeletal animation playback: the clips of each skinned mesh, their blend weights,
//! and the clock that a menu freezes.
//!
//! Clips are carried through as values of any type. Times are nanoseconds of a
//! monotonic clock; what is computed in floating point is handed in as functions.

use crate::float_bits::{FloatBits, one, zero};
use crate::tables::{AssetId, copied, lookup};
use std::collections::HashMap;
use vstd::prelude::*;

verus! {

/// A declared animation.
#[derive(Debug)]
pub struct Animation<C> {
    pub target: Option<AssetId>,
    pub clip: C,
    pub weight: FloatBits,
    pub fade_in_secs: FloatBits,
    pub source: String,
    pub animation_index: u32,
    pub animation_name: String,
    pub looping: bool,
}

/// A clip with its steady weight and the seconds it takes to reach it at the start.
#[derive(Debug)]
pub struct ClipEntry<C> {
    pub clip: C,
    pub declared_weight: FloatBits,
    pub fade_in_secs: FloatBits,
}

/// A ramp between two weight vectors; one of no length snaps to its end.
#[derive(Debug)]
pub struct Transition {
    pub source_weights: Vec<FloatBits>,
    pub target_weights: Vec<FloatBits>,
    pub start_secs: FloatBits,
    pub duration_secs: FloatBits,
}

/// The clips of one skinned mesh and their live weights.
#[derive(Debug)]
pub struct TargetState<C> {
    pub target: AssetId,
    pub clips: Vec<ClipEntry<C>>,
    pub current_weights: Vec<FloatBits>,
    pub transition: Option<Transition>,
}

/// What is needed to import a file-backed clip again.
#[derive(Debug)]
pub struct AnimationReloadEntry {
    pub target: AssetId,
    /// The clip's place among its target's clips.
    pub clip_index: usize,
    pub source: String,
    pub animation_index: u32,
    pub animation_name: String,
    pub weight: FloatBits,
    pub looping: bool,
}

/// A request to ramp a target's weights.
#[derive(Debug)]
pub struct Crossfade {
    pub target: AssetId,
    pub weights: Vec<FloatBits>,
    pub duration_secs: FloatBits,
}

/// Why a request is refused.
#[derive(Debug, Clone, Copy, PartialEq, Eq, Structural)]
pub enum CrossfadeError {
    /// No animation is registered for the target.
    UnknownTarget { target: AssetId },
    /// There is not one weight for each clip.
    WeightCount { weights: usize, clips: usize, target: AssetId },
}

/// The playback state.
#[derive(Debug)]
pub struct AnimationSystem<C> {
    /// One bucket for each target, in the order of first appearance.
    pub buckets: Vec<TargetState<C>>,
    /// The place of each target's bucket.
    pub index: HashMap<u32, usize>,
    /// The origin of clip time, fixed at the first step.
    pub start: Option<u64>,
    /// When the current pause began.
    pub pause_anchor: Option<u64>,
    /// A step has been made.
    pub stepped: bool,
    pub reload_entries: Vec<AnimationReloadEntry>,
}

impl<C> AnimationSystem<C> {
    /// The index is exactly that of the buckets.
    pub open spec fn wf(self) -> bool {
        &&& forall|t: u32| #[trigger]
            self.index@.dom().contains(t) ==> {
                &&& self.index@[t] < self.buckets@.len()
                &&& self.buckets@[self.index@[t] as int].target == t
            }
        &&& forall|i: int|
            0 <= i < self.buckets@.len() ==> {
                let t = (#[trigger] self.buckets@[i]).target;
                self.index@.dom().contains(t) && self.index@[t] == i
            }
    }

    /// A target has a bucket.
    pub open spec fn has(self, t: u32) -> bool {
        self.index@.dom().contains(t)
    }

    /// The bucket of a target.
    pub open spec fn bucket(self, t: u32) -> TargetState<C> {
        self.buckets@[self.index@[t] as int]
    }

    /// The clips of a target: none where it has no bucket.
    pub open spec fn clips_of(self, t: u32) -> Seq<ClipEntry<C>> {
        if self.has(t) {
            self.bucket(t).clips@
        } else {
            Seq::empty()
        }
    }

    /// The live weights of a target.
    pub open spec fn weights_of(self, t: u32) -> Seq<FloatBits> {
        if self.has(t) {
            self.bucket(t).current_weights@
        } else {
            Seq::empty()
        }
    }

    /// The transition of a target.
    pub open spec fn transition_of(self, t: u32) -> Option<Transition> {
        if self.has(t) {
            self.bucket(t).transition
        } else {
            None
        }
    }

    /// Neither the clock nor the reload entries differ.
    pub open spec fn same_clock(self, other: AnimationSystem<C>) -> bool {
        self.start == other.start && self.pause_anchor == other.pause_anchor && self.stepped
            == other.stepped && self.reload_entries == other.reload_entries
    }
}

/// The entry of a declared animation: a negative fade is none.
pub open spec fn entry_of<C>(a: Animation<C>) -> ClipEntry<C> {
    ClipEntry {
        clip: a.clip,
        declared_weight: a.weight,
        fade_in_secs: a.fade_in_secs.greater(zero()),
    }
}

/// The weight a clip starts with: nothing where it fades in.
pub open spec fn initial_weight<C>(e: ClipEntry<C>) -> FloatBits {
    if zero().less(e.fade_in_secs) {
        zero()
    } else {
        e.declared_weight
    }
}

/// The clips that the first `k` animations add to a target.
pub open spec fn added<C>(anims: Seq<Animation<C>>, t: u32, k: nat) -> Seq<ClipEntry<C>>
    decreases k,
{
    if k == 0 {
        Seq::empty()
    } else {
        let before = added(anims, t, (k - 1) as nat);
        if anims[k - 1].target == Some(t) {
            before.push(entry_of(anims[k - 1]))
        } else {
            before
        }
    }
}

/// The weights that the first `k` animations add to a target.
pub open spec fn added_weights<C>(anims: Seq<Animation<C>>, t: u32, k: nat) -> Seq<FloatBits> {
    added(anims, t, k).map_values(|e: ClipEntry<C>| initial_weight(e))
}

/// The reload entries of the first `k` animations, of which the file-backed ones with
/// a target have one. `sys` is the state before them.
pub open spec fn captured<C>(
    sys: AnimationSystem<C>,
    anims: Seq<Animation<C>>,
    capture: bool,
    k: nat,
) -> Seq<AnimationReloadEntry>
    decreases k,
{
    if k == 0 {
        Seq::empty()
    } else {
        let before = captured(sys, anims, capture, (k - 1) as nat);
        let a = anims[k - 1];
        if capture && a.target is Some && a.source@.len() > 0 {
            let t = a.target->0;
            before.push(
                AnimationReloadEntry {
                    target: t,
                    clip_index: (sys.clips_of(t).len() + added(
                        anims,
                        t,
                        (k - 1) as nat,
                    ).len()) as usize,
                    source: a.source,
                    animation_index: a.animation_index,
                    animation_name: a.animation_name,
                    weight: a.weight,
                    looping: a.looping,
                },
            )
        } else {
            before
        }
    }
}

/// The longest fade among the first `k` clips.
pub open spec fn longest_fade<C>(clips: Seq<ClipEntry<C>>, k: nat) -> FloatBits
    decreases k,
{
    if k == 0 {
        zero()
    } else {
        longest_fade(clips, (k - 1) as nat).greater(clips[k - 1].fade_in_secs)
    }
}

/// The declared weights of clips.
pub open spec fn declared<C>(clips: Seq<ClipEntry<C>>) -> Seq<FloatBits> {
    clips.map_values(|e: ClipEntry<C>| e.declared_weight)
}

/// The transition with which a bucket starts: a ramp from its weights to the declared
/// ones over the longest fade where a clip fades in, and what it had otherwise.
pub open spec fn is_startup<C>(
    clips: Seq<ClipEntry<C>>,
    weights: Seq<FloatBits>,
    was: Option<Transition>,
    now: Option<Transition>,
) -> bool {
    let fade = longest_fade(clips, clips.len());
    if zero().less(fade) {
        &&& now is Some
        &&& now->0.source_weights@ == weights
        &&& now->0.target_weights@ == declared(clips)
        &&& now->0.start_secs == zero()
        &&& now->0.duration_secs == fade
    } else {
        now == was
    }
}

/// The elapsed time from an origin, none before it.
pub open spec fn elapsed(origin: u64, now: u64) -> u64 {
    if origin <= now {
        (now - origin) as u64
    } else {
        0
    }
}

/// The origin that keeps clip time continuous when a pause ends: the old one moved by
/// the length of the pause.
pub open spec fn moved_origin(start: u64, anchor: u64, now: u64) -> int {
    start + elapsed(anchor, now)
}

/// The origin in force at a step that is not paused.
pub open spec fn origin_at(start: Option<u64>, anchor: Option<u64>, now: u64) -> int {
    match (start, anchor) {
        (Some(s), Some(a)) => moved_origin(s, a, now),
        (Some(s), None) => s as int,
        (None, _) => now as int,
    }
}

/// The origin to use on the step a pause ends.
pub fn resumed_origin(start: u64, anchor: u64, now: u64) -> (r: u64)
    requires
        moved_origin(start, anchor, now) <= u64::MAX,
    ensures
        r == moved_origin(start, anchor, now),
{
    start + since(anchor, now)
}

fn since(origin: u64, now: u64) -> (r: u64)
    ensures
        r == elapsed(origin, now),
{
    if origin <= now {
        now - origin
    } else {
        0
    }
}

/// What a request is answered: it must name a target with a bucket, and give one
/// weight for each of its clips.
pub open spec fn reply<C>(sys: AnimationSystem<C>, req: Crossfade) -> Result<(), CrossfadeError> {
    if !sys.has(req.target) {
        Err(CrossfadeError::UnknownTarget { target: req.target })
    } else if req.weights@.len() != sys.clips_of(req.target).len() {
        Err(
            CrossfadeError::WeightCount {
                weights: req.weights@.len() as usize,
                clips: sys.clips_of(req.target).len() as usize,
                target: req.target,
            },
        )
    } else {
        Ok(())
    }
}

/// Whether a transition is the one that a request asks for at a moment.
pub open spec fn is_crossfade(
    tr: Option<Transition>,
    weights: Seq<FloatBits>,
    req: Crossfade,
    now: FloatBits,
) -> bool {
    &&& tr is Some
    &&& tr->0.source_weights@ == weights
    &&& tr->0.target_weights@ == req.weights@
    &&& tr->0.start_secs == now
    &&& tr->0.duration_secs == req.duration_secs.greater(zero())
}

/// The last of the first `k` requests that is accepted for a target.
pub open spec fn last_accepted<C>(
    sys: AnimationSystem<C>,
    reqs: Seq<Crossfade>,
    t: u32,
    k: nat,
) -> Option<int>
    decreases k,
{
    if k == 0 {
        None
    } else if reqs[k - 1].target == t && reply(sys, reqs[k - 1]) is Ok {
        Some(k - 1)
    } else {
        last_accepted(sys, reqs, t, (k - 1) as nat)
    }
}

/// The state after the first `k` requests: only transitions have changed.
pub open spec fn has_crossfaded<C>(
    was: AnimationSystem<C>,
    now: AnimationSystem<C>,
    reqs: Seq<Crossfade>,
    now_secs: FloatBits,
    k: nat,
) -> bool {
    &&& now.wf()
    &&& now.same_clock(was)
    &&& now.index == was.index
    &&& forall|t: u32| #[trigger]
        now.has(t) ==> {
            &&& now.bucket(t).clips == was.bucket(t).clips
            &&& now.bucket(t).current_weights == was.bucket(t).current_weights
            &&& match last_accepted(was, reqs, t, k) {
                Some(i) => is_crossfade(
                    now.bucket(t).transition,
                    was.bucket(t).current_weights@,
                    reqs[i],
                    now_secs,
                ),
                None => now.bucket(t).transition == was.bucket(t).transition,
            }
        }
}

/// A ramp is over: it has no length, or its end has come. `sum` adds.
pub open spec fn is_finished<A: Fn(FloatBits, FloatBits) -> FloatBits>(
    sum: A,
    tr: Transition,
    now: FloatBits,
    done: bool,
) -> bool {
    if tr.duration_secs.at_most(zero()) {
        done
    } else {
        exists|end: FloatBits|
            {
                &&& #[trigger] call_ensures(sum, (tr.start_secs, tr.duration_secs), end)
                &&& done == end.at_most(now)
            }
    }
}

/// The number of weights that a ramp moves.
pub open spec fn moved_count(weights: Seq<FloatBits>, tr: Transition) -> nat {
    let n = if weights.len() <= tr.source_weights@.len() {
        weights.len()
    } else {
        tr.source_weights@.len()
    };
    if n <= tr.target_weights@.len() {
        n
    } else {
        tr.target_weights@.len()
    }
}

/// Weights part of the way along a ramp.
pub open spec fn is_between<L: Fn(FloatBits, FloatBits, FloatBits) -> FloatBits>(
    lerp: L,
    was: Seq<FloatBits>,
    tr: Transition,
    progress: FloatBits,
    now: Seq<FloatBits>,
) -> bool {
    &&& now.len() == was.len()
    &&& forall|i: int|
        0 <= i < moved_count(was, tr) ==> call_ensures(
            lerp,
            (tr.source_weights@[i], tr.target_weights@[i], progress),
            #[trigger] now[i],
        )
    &&& forall|i: int| moved_count(was, tr) <= i < was.len() ==> #[trigger] now[i] == was[i]
}

/// One bucket after its weights have been advanced: without a ramp they stay, at the
/// end of it they are its target, and on the way they lie between by the share of the
/// ramp that has passed.
pub open spec fn is_advanced<
    C,
    A: Fn(FloatBits, FloatBits) -> FloatBits,
    P: Fn(FloatBits, FloatBits, FloatBits) -> FloatBits,
    L: Fn(FloatBits, FloatBits, FloatBits) -> FloatBits,
>(
    sum: A,
    share: P,
    lerp: L,
    was: TargetState<C>,
    transition: Option<Transition>,
    now_secs: FloatBits,
    now: TargetState<C>,
) -> bool {
    &&& now.target == was.target
    &&& now.clips == was.clips
    &&& match transition {
        None => now.current_weights@ == was.current_weights@ && now.transition is None,
        Some(tr) => {
            ||| {
                &&& is_finished(sum, tr, now_secs, true)
                &&& now.transition is None
                &&& now.current_weights@ == tr.target_weights@
            }
            ||| {
                &&& !tr.duration_secs.at_most(zero())
                &&& is_finished(sum, tr, now_secs, false)
                &&& now.transition == Some(tr)
                &&& exists|raw: FloatBits|
                    {
                        &&& #[trigger] call_ensures(
                            share,
                            (now_secs, tr.start_secs, tr.duration_secs),
                            raw,
                        )
                        &&& is_between(
                            lerp,
                            was.current_weights@,
                            tr,
                            raw.clamped(zero(), one()),
                            now.current_weights@,
                        )
                    }
            }
        },
    }
}

/// A transition that has not begun to elapse.
pub open spec fn unanchored(tr: Transition) -> bool {
    !tr.start_secs.nan() && tr.start_secs.rank() == 0
}

/// A transition as a step takes it up: the first step is where one that has not begun
/// begins, and later steps leave its start alone.
pub open spec fn anchored(tr: Option<Transition>, first: bool, t: FloatBits) -> Option<Transition> {
    match tr {
        Some(tr) if first && unanchored(tr) => Some(Transition { start_secs: t, ..tr }),
        other => other,
    }
}

/// Advance one bucket's weights along its ramp. `sum` adds, `share` is the part of a
/// ramp from a start over a duration that has passed at a moment, and `lerp` mixes two
/// weights by such a part.
pub fn advance_weights<
    C,
    A: Fn(FloatBits, FloatBits) -> FloatBits,
    P: Fn(FloatBits, FloatBits, FloatBits) -> FloatBits,
    L: Fn(FloatBits, FloatBits, FloatBits) -> FloatBits,
>(state: TargetState<C>, now_secs: FloatBits, sum: &A, share: &P, lerp: &L) -> (r: TargetState<C>)
    requires
        forall|a: FloatBits, b: FloatBits| call_requires(*sum, (a, b)),
        forall|a: FloatBits, b: FloatBits, c: FloatBits| call_requires(*share, (a, b, c)),
        forall|a: FloatBits, b: FloatBits, c: FloatBits| call_requires(*lerp, (a, b, c)),
    ensures
        is_advanced(*sum, *share, *lerp, state, state.transition, now_secs, r),
{
    let TargetState { target, clips, current_weights, transition } = state;
    match transition {
        None => TargetState { target, clips, current_weights, transition: None },
        Some(tr) => {
            let finished: bool = if tr.duration_secs.le(FloatBits::new(0)) {
                true
            } else {
                let end: FloatBits = sum(tr.start_secs, tr.duration_secs);
                assert(call_ensures(*sum, (tr.start_secs, tr.duration_secs), end));
                end.le(now_secs)
            };
            assert(is_finished(*sum, tr, now_secs, finished));
            if finished {
                let weights: Vec<FloatBits> = copied(&tr.target_weights);
                TargetState { target, clips, current_weights: weights, transition: None }
            } else {
                let raw: FloatBits = share(now_secs, tr.start_secs, tr.duration_secs);
                assert(call_ensures(*share, (now_secs, tr.start_secs, tr.duration_secs), raw));
                let progress: FloatBits = raw.clamp(FloatBits::new(0), FloatBits::new(0x3f80_0000));
                let ghost was = current_weights@;
                let mut weights: Vec<FloatBits> = Vec::new();
                let mut i: usize = 0;
                while i < current_weights.len()
                    invariant
                        i <= current_weights@.len(),
                        was == current_weights@,
                        weights@.len() == i,
                        forall|a: FloatBits, b: FloatBits, c: FloatBits|
                            call_requires(*lerp, (a, b, c)),
                        forall|j: int|
                            0 <= j < i && j < moved_count(was, tr) ==> call_ensures(
                                *lerp,
                                (tr.source_weights@[j], tr.target_weights@[j], progress),
                                #[trigger] weights@[j],
                            ),
                        forall|j: int|
                            moved_count(was, tr) <= j < i ==> #[trigger] weights@[j] == was[j],
                    decreases current_weights@.len() - i,
                {
                    let w: FloatBits = if i < tr.source_weights.len() && i
                        < tr.target_weights.len() {
                        lerp(tr.source_weights[i], tr.target_weights[i], progress)
                    } else {
                        current_weights[i]
                    };
                    weights.push(w);
                    i = i + 1;
                }
                assert(is_between(*lerp, was, tr, progress, weights@));
                TargetState { target, clips, current_weights: weights, transition: Some(tr) }
            }
        },
    }
}

/// The ramp with which a bucket starts, where one of its clips fades in.
fn startup_ramp<C>(b: &TargetState<C>) -> (r: Option<Transition>)
    ensures
        r is Some <==> zero().less(longest_fade(b.clips@, b.clips@.len())),
        r is Some ==> is_startup(b.clips@, b.current_weights@, None, r),
{
    let mut fade: FloatBits = FloatBits::new(0);
    let mut weights: Vec<FloatBits> = Vec::new();
    let mut k: usize = 0;
    while k < b.clips.len()
        invariant
            k <= b.clips@.len(),
            fade == longest_fade(b.clips@, k as nat),
            weights@.len() == k,
            forall|j: int| 0 <= j < k ==> #[trigger] weights@[j] == b.clips@[j].declared_weight,
        decreases b.clips@.len() - k,
    {
        fade = fade.max(b.clips[k].fade_in_secs);
        weights.push(b.clips[k].declared_weight);
        k = k + 1;
    }
    if FloatBits::new(0).lt(fade) {
        assert(weights@ =~= declared(b.clips@));
        Some(
            Transition {
                source_weights: copied(&b.current_weights),
                target_weights: weights,
                start_secs: FloatBits::new(0),
                duration_secs: fade,
            },
        )
    } else {
        None
    }
}

/// The state after one more clip for a target.
pub open spec fn has_added<C>(
    was: AnimationSystem<C>,
    now: AnimationSystem<C>,
    t: u32,
    e: ClipEntry<C>,
) -> bool {
    &&& now.wf()
    &&& now.index@.dom() == was.index@.dom().insert(t)
    &&& now.clips_of(t) == was.clips_of(t).push(e)
    &&& now.weights_of(t) == was.weights_of(t).push(initial_weight(e))
    &&& now.transition_of(t) == was.transition_of(t)
    &&& forall|u: u32| u != t && #[trigger] was.has(u) ==> now.bucket(u) == was.bucket(u)
}

/// The state after the first `k` animations have been added.
pub open spec fn has_loaded<C>(
    was: AnimationSystem<C>,
    now: AnimationSystem<C>,
    anims: Seq<Animation<C>>,
    k: nat,
) -> bool {
    &&& now.wf()
    &&& forall|t: u32| #[trigger]
        now.has(t) <==> was.has(t) || added(anims, t, k).len() > 0
    &&& forall|t: u32| #[trigger] now.clips_of(t) == was.clips_of(t) + added(anims, t, k)
    &&& forall|t: u32| #[trigger]
        now.weights_of(t) == was.weights_of(t) + added_weights(anims, t, k)
    &&& forall|t: u32| #[trigger] now.transition_of(t) == was.transition_of(t)
}

proof fn lemma_loads_one<C>(
    was: AnimationSystem<C>,
    mid: AnimationSystem<C>,
    now: AnimationSystem<C>,
    anims: Seq<Animation<C>>,
    k: nat,
)
    requires
        has_loaded(was, mid, anims, k),
        anims[k as int].target matches Some(t) ==> has_added(
            mid,
            now,
            t,
            entry_of(anims[k as int]),
        ),
        anims[k as int].target is None ==> now == mid,
    ensures
        has_loaded(was, now, anims, k + 1),
{
    assert forall|t: u32|
        #![trigger now.has(t)]
        #![trigger now.clips_of(t)]
        #![trigger now.weights_of(t)]
        #![trigger now.transition_of(t)]
        {
            &&& now.has(t) <==> was.has(t) || added(anims, t, k + 1).len() > 0
            &&& now.clips_of(t) == was.clips_of(t) + added(anims, t, k + 1)
            &&& now.weights_of(t) == was.weights_of(t) + added_weights(anims, t, k + 1)
            &&& now.transition_of(t) == was.transition_of(t)
        } by {
        let a = anims[k as int];
        assert(mid.clips_of(t) == was.clips_of(t) + added(anims, t, k));
        assert(mid.weights_of(t) == was.weights_of(t) + added_weights(anims, t, k));
        assert(mid.transition_of(t) == was.transition_of(t));
        assert(mid.has(t) <==> was.has(t) || added(anims, t, k).len() > 0);
        if a.target == Some(t) {
            assert(now.clips_of(t) =~= was.clips_of(t) + added(anims, t, k + 1));
            assert(added_weights(anims, t, k + 1) =~= added_weights(anims, t, k).push(
                initial_weight(entry_of(a)),
            ));
            assert(now.weights_of(t) =~= was.weights_of(t) + added_weights(anims, t, k + 1));
        } else if a.target is Some {
            if mid.has(t) {
                assert(now.bucket(t) == mid.bucket(t));
            }
        }
    }
}

impl<C> AnimationSystem<C> {
    /// Playback without clips.
    pub fn new() -> (r: AnimationSystem<C>)
        ensures
            r.wf(),
            forall|t: u32| !(#[trigger] r.has(t)),
            r.start is None,
            r.pause_anchor is None,
            !r.stepped,
            r.reload_entries@.len() == 0,
    {
        AnimationSystem {
            buckets: Vec::new(),
            index: HashMap::new(),
            start: None,
            pause_anchor: None,
            stepped: false,
            reload_entries: Vec::new(),
        }
    }

    /// The file-backed clips.
    pub fn reload_entries(&self) -> (r: &Vec<AnimationReloadEntry>)
        ensures
            *r == self.reload_entries,
    {
        &self.reload_entries
    }

    /// The place of a new clip of a target, whose bucket is made where there is none.
    fn add_clip(&mut self, target: u32, entry: ClipEntry<C>) -> (r: usize)
        requires
            old(self).wf(),
        ensures
            has_added(*old(self), *final(self), target, entry),
            final(self).same_clock(*old(self)),
            r == old(self).clips_of(target).len(),
    {
        broadcast use vstd::std_specs::hash::group_hash_axioms;

        let ghost was = *self;
        let at: usize = match lookup(&self.index, target) {
            Some(i) => *i,
            None => {
                let n: usize = self.buckets.len();
                self.buckets.push(
                    TargetState {
                        target,
                        clips: Vec::new(),
                        current_weights: Vec::new(),
                        transition: None,
                    },
                );
                self.index.insert(target, n);
                n
            },
        };
        let weight: FloatBits = if FloatBits::new(0).lt(entry.fade_in_secs) {
            FloatBits::new(0)
        } else {
            entry.declared_weight
        };
        let place: usize = self.buckets[at].clips.len();
        self.buckets[at].clips.push(entry);
        self.buckets[at].current_weights.push(weight);
        proof {
            assert(self.index@.dom() =~= was.index@.dom().insert(target));
            assert(self.index@[target] == at);
            assert(self.clips_of(target) =~= was.clips_of(target).push(entry));
            assert(self.weights_of(target) =~= was.weights_of(target).push(initial_weight(entry)));
            assert forall|u: u32| u != target && #[trigger] was.has(u) implies self.bucket(u)
                == was.bucket(u) by {
                assert(was.buckets@[was.index@[u] as int].target == u);
            }
        }
        place
    }

    /// Take up the declared animations. One without a target is left out. `capture`
    /// asks for a reload entry for each file-backed clip. A bucket with a clip that
    /// fades in starts on a ramp to the declared weights.
    pub fn init(&mut self, anims: Vec<Animation<C>>, capture: bool)
        requires
            old(self).wf(),
        ensures
            final(self).wf(),
            forall|t: u32| #[trigger]
                final(self).has(t) <==> old(self).has(t) || added(anims@, t, anims@.len()).len()
                    > 0,
            forall|t: u32| #[trigger]
                final(self).clips_of(t) == old(self).clips_of(t) + added(anims@, t, anims@.len()),
            forall|t: u32| #[trigger]
                final(self).weights_of(t) == old(self).weights_of(t) + added_weights(
                    anims@,
                    t,
                    anims@.len(),
                ),
            forall|t: u32| #[trigger]
                final(self).has(t) ==> is_startup(
                    final(self).clips_of(t),
                    final(self).weights_of(t),
                    old(self).transition_of(t),
                    final(self).transition_of(t),
                ),
            final(self).reload_entries@ == old(self).reload_entries@ + captured(
                *old(self),
                anims@,
                capture,
                anims@.len(),
            ),
            final(self).start == old(self).start,
            final(self).pause_anchor == old(self).pause_anchor,
            final(self).stepped == old(self).stepped,
    {
        let ghost was = *self;
        let ghost all = anims@;
        assert(has_loaded(was, *self, all, 0)) by {
            assert forall|t: u32|
                #![trigger self.clips_of(t)]
                #![trigger self.weights_of(t)]
                self.clips_of(t) == was.clips_of(t) + added(all, t, 0) && self.weights_of(t)
                    == was.weights_of(t) + added_weights(all, t, 0) by {
                assert(added(all, t, 0) =~= Seq::empty());
                assert(added_weights(all, t, 0) =~= Seq::empty());
                assert(was.clips_of(t) + Seq::empty() =~= was.clips_of(t));
                assert(was.weights_of(t) + Seq::empty() =~= was.weights_of(t));
            }
        }
        assert(self.reload_entries@ =~= was.reload_entries@ + captured(was, all, capture, 0));
        for anim in it: anims.into_iter()
            invariant
                it.seq() == all,
                has_loaded(was, *self, all, it.index() as nat),
                self.start == was.start,
                self.pause_anchor == was.pause_anchor,
                self.stepped == was.stepped,
                self.reload_entries@ == was.reload_entries@ + captured(
                    was,
                    all,
                    capture,
                    it.index() as nat,
                ),
        {
            let ghost k = it.index() as nat;
            let ghost mid = *self;
            let ghost before = self.reload_entries@;
            let Animation {
                target,
                clip,
                weight,
                fade_in_secs,
                source,
                animation_index,
                animation_name,
                looping,
            } = anim;
            match target {
                None => {},
                Some(t) => {
                    let entry: ClipEntry<C> = ClipEntry {
                        clip,
                        declared_weight: weight,
                        fade_in_secs: fade_in_secs.max(FloatBits::new(0)),
                    };
                    let clip_index: usize = self.add_clip(t, entry);
                    assert(mid.clips_of(t) == was.clips_of(t) + added(all, t, k));
                    if capture && source.as_str().unicode_len() > 0 {
                        self.reload_entries.push(
                            AnimationReloadEntry {
                                target: t,
                                clip_index,
                                source,
                                animation_index,
                                animation_name,
                                weight,
                                looping,
                            },
                        );
                    }
                    assert(has_added(mid, *self, t, entry_of(all[k as int])));
                },
            }
            proof {
                lemma_loads_one(was, mid, *self, all, k);
            }
        }
        self.begin_fades();
    }

    /// Put each bucket with a clip that fades in on a ramp to the declared weights.
    fn begin_fades(&mut self)
        requires
            old(self).wf(),
        ensures
            final(self).wf(),
            final(self).same_clock(*old(self)),
            final(self).index == old(self).index,
            forall|t: u32| #[trigger]
                final(self).has(t) ==> {
                    &&& final(self).clips_of(t) == old(self).clips_of(t)
                    &&& final(self).weights_of(t) == old(self).weights_of(t)
                    &&& is_startup(
                        final(self).clips_of(t),
                        final(self).weights_of(t),
                        old(self).transition_of(t),
                        final(self).transition_of(t),
                    )
                },
    {
        let ghost was = *self;
        let mut i: usize = 0;
        while i < self.buckets.len()
            invariant
                i <= self.buckets@.len(),
                self.buckets@.len() == was.buckets@.len(),
                self.same_clock(was),
                self.index == was.index,
                forall|j: int|
                    0 <= j < self.buckets@.len() ==> {
                        let b = #[trigger] self.buckets@[j];
                        &&& b.target == was.buckets@[j].target
                        &&& b.clips == was.buckets@[j].clips
                        &&& b.current_weights == was.buckets@[j].current_weights
                    },
                forall|j: int|
                    i <= j < self.buckets@.len() ==> #[trigger] self.buckets@[j]
                        == was.buckets@[j],
                forall|j: int|
                    0 <= j < i ==> {
                        let b = #[trigger] self.buckets@[j];
                        is_startup(
                            b.clips@,
                            b.current_weights@,
                            was.buckets@[j].transition,
                            b.transition,
                        )
                    },
            decreases self.buckets@.len() - i,
        {
            let ghost mid = self.buckets@;
            match startup_ramp(&self.buckets[i]) {
                Some(tr) => {
                    self.buckets[i].transition = Some(tr);
                },
                None => {},
            }
            proof {
                assert forall|j: int| 0 <= j < self.buckets@.len() && j != i implies
                    #[trigger] self.buckets@[j] == mid[j] by {}
            }
            i = i + 1;
        }
        proof {
            assert forall|t: u32| #[trigger] self.has(t) implies {
                &&& self.clips_of(t) == was.clips_of(t)
                &&& self.weights_of(t) == was.weights_of(t)
                &&& is_startup(
                    self.clips_of(t),
                    self.weights_of(t),
                    was.transition_of(t),
                    self.transition_of(t),
                )
            } by {
                assert(was.has(t));
                let b = self.buckets@[was.index@[t] as int];
            }
            assert(self.wf()) by {
                assert forall|t: u32| #[trigger] self.index@.dom().contains(t) implies {
                    &&& self.index@[t] < self.buckets@.len()
                    &&& self.buckets@[self.index@[t] as int].target == t
                } by {
                    assert(was.buckets@[was.index@[t] as int].target == t);
                }
                assert forall|j: int| 0 <= j < self.buckets@.len() implies {
                    let t = (#[trigger] self.buckets@[j]).target;
                    self.index@.dom().contains(t) && self.index@[t] == j
                } by {
                    assert(was.index@.dom().contains(was.buckets@[j].target));
                }
            }
        }
    }

    /// Put a clip that was imported again in its place, with its declared weight. False
    /// where the target has no such place; nothing is changed then.
    pub fn apply_reloaded_clip(
        &mut self,
        target: AssetId,
        clip_index: usize,
        clip: C,
        weight: FloatBits,
    ) -> (r: bool)
        requires
            old(self).wf(),
        ensures
            final(self).wf(),
            final(self).same_clock(*old(self)),
            final(self).index == old(self).index,
            r == (clip_index < old(self).clips_of(target).len()),
            !r ==> final(self).buckets == old(self).buckets,
            r ==> {
                let at = old(self).index@[target] as int;
                let was = old(self).bucket(target);
                let now = final(self).bucket(target);
                &&& now.clips@ == was.clips@.update(
                    clip_index as int,
                    (ClipEntry {
                        clip,
                        declared_weight: weight,
                        fade_in_secs: was.clips@[clip_index as int].fade_in_secs,
                    }),
                )
                &&& now.target == was.target
                &&& now.current_weights == was.current_weights
                &&& now.transition == was.transition
                &&& forall|u: u32|
                    u != target && #[trigger] old(self).has(u) ==> final(self).bucket(u) == old(
                        self,
                    ).bucket(u)
            },
    {
        let ghost was = *self;
        let at: usize = match lookup(&self.index, target) {
            Some(i) => *i,
            None => {
                return false;
            },
        };
        if clip_index >= self.buckets[at].clips.len() {
            return false;
        }
        let fade_in_secs: FloatBits = self.buckets[at].clips[clip_index].fade_in_secs;
        self.buckets[at].clips.set(
            clip_index,
            ClipEntry { clip, declared_weight: weight, fade_in_secs },
        );
        proof {
            assert forall|u: u32| u != target && #[trigger] was.has(u) implies self.bucket(u)
                == was.bucket(u) by {
                assert(was.buckets@[was.index@[u] as int].target == u);
            }
        }
        true
    }

    /// Answer one request: an accepted one replaces the target's ramp by one from the
    /// live weights, which begins now; a refused one changes nothing.
    pub fn crossfade(&mut self, req: Crossfade, now_secs: FloatBits) -> (r: Result<
        (),
        CrossfadeError,
    >)
        requires
            old(self).wf(),
        ensures
            final(self).wf(),
            final(self).same_clock(*old(self)),
            final(self).index == old(self).index,
            r == reply(*old(self), req),
            r is Err ==> final(self).buckets == old(self).buckets,
            r is Ok ==> {
                let was = old(self).bucket(req.target);
                let now = final(self).bucket(req.target);
                &&& now.target == was.target
                &&& now.clips == was.clips
                &&& now.current_weights == was.current_weights
                &&& is_crossfade(now.transition, was.current_weights@, req, now_secs)
            },
            forall|u: u32|
                u != req.target && #[trigger] old(self).has(u) ==> final(self).bucket(u) == old(
                    self,
                ).bucket(u),
    {
        let ghost was = *self;
        let target: u32 = req.target;
        let at: usize = match lookup(&self.index, target) {
            Some(i) => *i,
            None => {
                return Err(CrossfadeError::UnknownTarget { target });
            },
        };
        let clips: usize = self.buckets[at].clips.len();
        if req.weights.len() != clips {
            return Err(CrossfadeError::WeightCount { weights: req.weights.len(), clips, target });
        }
        let source_weights: Vec<FloatBits> = copied(&self.buckets[at].current_weights);
        let duration_secs: FloatBits = req.duration_secs.max(FloatBits::new(0));
        self.buckets[at].transition = Some(
            Transition {
                source_weights,
                target_weights: req.weights,
                start_secs: now_secs,
                duration_secs,
            },
        );
        proof {
            assert forall|u: u32| u != target && #[trigger] was.has(u) implies self.bucket(u)
                == was.bucket(u) by {
                assert(was.buckets@[was.index@[u] as int].target == u);
            }
        }
        Ok(())
    }

    /// Answer requests in order. Each answer is the one the request would get alone,
    /// and a target ramps as the last accepted request for it asks.
    pub fn drain_runtime_commands(&mut self, reqs: Vec<Crossfade>, now_secs: FloatBits) -> (r: Vec<
        Result<(), CrossfadeError>,
    >)
        requires
            old(self).wf(),
        ensures
            has_crossfaded(*old(self), *final(self), reqs@, now_secs, reqs@.len()),
            r@.len() == reqs@.len(),
            forall|i: int|
                0 <= i < reqs@.len() ==> #[trigger] r@[i] == reply(*old(self), reqs@[i]),
    {
        let ghost was = *self;
        let ghost all = reqs@;
        let mut out: Vec<Result<(), CrossfadeError>> = Vec::new();
        for req in it: reqs.into_iter()
            invariant
                it.seq() == all,
                was.wf(),
                has_crossfaded(was, *self, all, now_secs, it.index() as nat),
                out@.len() == it.index(),
                forall|i: int|
                    0 <= i < it.index() ==> #[trigger] out@[i] == reply(was, all[i]),
        {
            let ghost k = it.index() as nat;
            let ghost mid = *self;
            let ghost asked = req;
            let answer: Result<(), CrossfadeError> = self.crossfade(req, now_secs);
            proof {
                assert(asked == all[k as int]);
                let t = asked.target;
                if was.has(t) {
                    assert(mid.has(t));
                    assert(mid.bucket(t).clips == was.bucket(t).clips);
                }
                assert(reply(mid, asked) == reply(was, asked));
                assert forall|u: u32| #[trigger] self.has(u) implies {
                    &&& self.bucket(u).clips == was.bucket(u).clips
                    &&& self.bucket(u).current_weights == was.bucket(u).current_weights
                    &&& match last_accepted(was, all, u, k + 1) {
                        Some(i) => is_crossfade(
                            self.bucket(u).transition,
                            was.bucket(u).current_weights@,
                            all[i],
                            now_secs,
                        ),
                        None => self.bucket(u).transition == was.bucket(u).transition,
                    }
                } by {
                    assert(mid.has(u));
                    if u != t || answer is Err {
                        assert(self.bucket(u) == mid.bucket(u));
                    }
                }
            }
            out.push(answer);
        }
        out
    }

    /// Answer requests by the system's own clock, whose origin is fixed where it was
    /// not. `secs` turns nanoseconds into seconds.
    pub fn apply_crossfade_commands<S: Fn(u64) -> FloatBits>(
        &mut self,
        reqs: Vec<Crossfade>,
        now: u64,
        secs: &S,
    ) -> (r: Vec<Result<(), CrossfadeError>>)
        requires
            old(self).wf(),
            forall|n: u64| call_requires(*secs, (n,)),
        ensures
            final(self).wf(),
            final(self).start == Some(
                match old(self).start {
                    Some(s) => s,
                    None => now,
                },
            ),
            final(self).pause_anchor == old(self).pause_anchor,
            final(self).stepped == old(self).stepped,
            final(self).reload_entries == old(self).reload_entries,
            exists|t: FloatBits|
                {
                    &&& #[trigger] call_ensures(*secs, (elapsed(final(self).start->0, now),), t)
                    &&& has_crossfaded(
                        (AnimationSystem { start: final(self).start, ..*old(self) }),
                        *final(self),
                        reqs@,
                        t,
                        reqs@.len(),
                    )
                },
            r@.len() == reqs@.len(),
            forall|i: int|
                0 <= i < reqs@.len() ==> #[trigger] r@[i] == reply(*old(self), reqs@[i]),
    {
        let start: u64 = match self.start {
            Some(s) => s,
            None => now,
        };
        self.start = Some(start);
        let t: FloatBits = secs(since(start, now));
        assert(call_ensures(*secs, (elapsed(start, now),), t));
        let ghost mid = *self;
        assert(forall|req: Crossfade| #[trigger] reply(mid, req) == reply(*old(self), req));
        let r: Vec<Result<(), CrossfadeError>> = self.drain_runtime_commands(reqs, t);
        proof {
            assert(self.start == Some(start));
            assert(mid == AnimationSystem { start: self.start, ..*old(self) });
            assert(call_ensures(*secs, (elapsed(self.start->0, now),), t));
        }
        r
    }

    /// Advance playback by one frame. While a menu is open it is frozen: only the
    /// beginning of the pause is noted, and there is no clip time. Otherwise the
    /// origin moves by the length of a pause that ends here, ramps that have not
    /// begun begin at the first step, every bucket's weights advance, and the clip time is given.
    pub fn step<
        S: Fn(u64) -> FloatBits,
        A: Fn(FloatBits, FloatBits) -> FloatBits,
        P: Fn(FloatBits, FloatBits, FloatBits) -> FloatBits,
        L: Fn(FloatBits, FloatBits, FloatBits) -> FloatBits,
    >(&mut self, now: u64, menu_active: bool, secs: &S, sum: &A, share: &P, lerp: &L) -> (r: Option<
        FloatBits,
    >)
        requires
            old(self).wf(),
            !menu_active ==> origin_at(old(self).start, old(self).pause_anchor, now) <= u64::MAX,
            forall|n: u64| call_requires(*secs, (n,)),
            forall|a: FloatBits, b: FloatBits| call_requires(*sum, (a, b)),
            forall|a: FloatBits, b: FloatBits, c: FloatBits| call_requires(*share, (a, b, c)),
            forall|a: FloatBits, b: FloatBits, c: FloatBits| call_requires(*lerp, (a, b, c)),
        ensures
            final(self).wf(),
            final(self).index == old(self).index,
            final(self).reload_entries == old(self).reload_entries,
            menu_active ==> {
                &&& r is None
                &&& final(self).buckets == old(self).buckets
                &&& final(self).start == old(self).start
                &&& final(self).stepped == old(self).stepped
                &&& final(self).pause_anchor == Some(
                    match old(self).pause_anchor {
                        Some(a) => a,
                        None => now,
                    },
                )
            },
            !menu_active ==> {
                let origin = origin_at(old(self).start, old(self).pause_anchor, now) as u64;
                &&& r is Some
                &&& call_ensures(*secs, (elapsed(origin, now),), r->0)
                &&& final(self).pause_anchor is None
                &&& final(self).start == Some(origin)
                &&& final(self).stepped
                &&& forall|t: u32| #[trigger]
                    final(self).has(t) ==> is_advanced(
                        *sum,
                        *share,
                        *lerp,
                        old(self).bucket(t),
                        anchored(old(self).bucket(t).transition, !old(self).stepped, r->0),
                        r->0,
                        final(self).bucket(t),
                    )
            },
    {
        if menu_active {
            if self.pause_anchor.is_none() {
                self.pause_anchor = Some(now);
            }
            return None;
        }
        let origin: u64 = match (self.start, self.pause_anchor) {
            (Some(s), Some(a)) => resumed_origin(s, a, now),
            (Some(s), None) => s,
            (None, _) => now,
        };
        self.pause_anchor = None;
        self.start = Some(origin);
        let first: bool = !self.stepped;
        self.stepped = true;
        let t: FloatBits = secs(since(origin, now));
        let mut taken: Vec<TargetState<C>> = Vec::new();
        std::mem::swap(&mut taken, &mut self.buckets);
        let ghost was = taken@;
        let mut buckets: Vec<TargetState<C>> = Vec::new();
        for b in it: taken.into_iter()
            invariant
                it.seq() == was,
                buckets@.len() == it.index(),
                forall|a: FloatBits, b: FloatBits| call_requires(*sum, (a, b)),
                forall|a: FloatBits, b: FloatBits, c: FloatBits| call_requires(*share, (a, b, c)),
                forall|a: FloatBits, b: FloatBits, c: FloatBits| call_requires(*lerp, (a, b, c)),
                forall|i: int|
                    0 <= i < it.index() ==> is_advanced(
                        *sum,
                        *share,
                        *lerp,
                        was[i],
                        anchored(was[i].transition, first, t),
                        t,
                        #[trigger] buckets@[i],
                    ),
        {
            let ghost before = b;
            let TargetState { target, clips, current_weights, transition } = b;
            let transition: Option<Transition> = match transition {
                Some(tr) => {
                    if first && is_unanchored(&tr) {
                        Some(Transition { start_secs: t, ..tr })
                    } else {
                        Some(tr)
                    }
                },
                None => None,
            };
            assert(transition == anchored(before.transition, first, t));
            let ready: TargetState<C> = TargetState {
                target,
                clips,
                current_weights,
                transition,
            };
            buckets.push(advance_weights(ready, t, sum, share, lerp));
        }
        self.buckets = buckets;
        proof {
            assert(was == old(self).buckets@);
            assert forall|u: u32| #[trigger] self.index@.dom().contains(u) implies {
                &&& self.index@[u] < self.buckets@.len()
                &&& self.buckets@[self.index@[u] as int].target == u
            } by {
                assert(was[self.index@[u] as int].target == u);
                let b = self.buckets@[self.index@[u] as int];
            }
            assert forall|j: int| 0 <= j < self.buckets@.len() implies {
                let u = (#[trigger] self.buckets@[j]).target;
                self.index@.dom().contains(u) && self.index@[u] == j
            } by {
                assert(self.index@.dom().contains(was[j].target));
            }
        }
        Some(t)
    }
}

/// Whether a transition has not begun to elapse.
fn is_unanchored(tr: &Transition) -> (r: bool)
    ensures
        r == unanchored(*tr),
{
    tr.start_secs.le(FloatBits::new(0)) && FloatBits::new(0).le(tr.start_secs)
}

/// Whether a list holds a sample of each clip at a moment.
pub open spec fn are_samples<C, J, F: Fn(&C, FloatBits) -> J>(
    sample: F,
    clips: Seq<ClipEntry<C>>,
    t: FloatBits,
    list: Seq<J>,
) -> bool {
    &&& list.len() == clips.len()
    &&& forall|i: int|
        0 <= i < clips.len() ==> call_ensures(sample, (&clips[i].clip, t), #[trigger] list[i])
}

impl<C> AnimationSystem<C> {
    /// The local transforms of a pose at a clip time: none for a mesh without clips,
    /// the sample of a single clip whatever its weight, and several clips' samples
    /// blended by the live weights.
    pub fn sample_pose<J, F: Fn(&C, FloatBits) -> J, B: Fn(&Vec<J>, &Vec<FloatBits>) -> J>(
        &self,
        mesh_id: AssetId,
        t: FloatBits,
        sample: &F,
        blend_many: &B,
    ) -> (r: Option<J>)
        requires
            self.wf(),
            forall|c: C, u: FloatBits| #[trigger] call_requires(*sample, (&c, u)),
            forall|l: Vec<J>, w: Vec<FloatBits>| #[trigger] call_requires(*blend_many, (&l, &w)),
        ensures
            r is Some <==> self.clips_of(mesh_id).len() > 0,
            self.clips_of(mesh_id).len() == 1 ==> call_ensures(
                *sample,
                (&self.clips_of(mesh_id)[0].clip, t),
                r->0,
            ),
            self.clips_of(mesh_id).len() > 1 ==> exists|l: Vec<J>|
                {
                    &&& #[trigger] are_samples(*sample, self.clips_of(mesh_id), t, l@)
                    &&& call_ensures(
                        *blend_many,
                        (&l, &self.bucket(mesh_id).current_weights),
                        r->0,
                    )
                },
    {
        let state: &TargetState<C> = match lookup(&self.index, mesh_id) {
            Some(i) => &self.buckets[*i],
            None => {
                return None;
            },
        };
        let n: usize = state.clips.len();
        if n == 0 {
            return None;
        }
        if n == 1 {
            return Some(sample(&state.clips[0].clip, t));
        }
        let mut sampled: Vec<J> = Vec::new();
        let mut i: usize = 0;
        while i < n
            invariant
                i <= n,
                n == state.clips@.len(),
                sampled@.len() == i,
                forall|c: C, u: FloatBits| #[trigger] call_requires(*sample, (&c, u)),
                forall|j: int|
                    0 <= j < i ==> call_ensures(
                        *sample,
                        (&state.clips@[j].clip, t),
                        #[trigger] sampled@[j],
                    ),
            decreases n - i,
        {
            sampled.push(sample(&state.clips[i].clip, t));
            i = i + 1;
        }
        assert(are_samples(*sample, self.clips_of(mesh_id), t, sampled@));
        let blended: J = blend_many(&sampled, &state.current_weights);
        assert(call_ensures(
            *blend_many,
            (&sampled, &self.bucket(mesh_id).current_weights),
            blended,
        ));
        Some(blended)
    }
}

/// A pause leaves clip time where it was: on the step that ends it, as much time has
/// passed since the moved origin as had passed since the old one when it began.
pub proof fn law_pause_freezes_clip_time(start: u64, anchor: u64, now: u64)
    requires
        start <= anchor <= now,
    ensures
        moved_origin(start, anchor, now) <= now,
        elapsed(moved_origin(start, anchor, now) as u64, now) == elapsed(start, anchor),
{
}

/// A pause before the first step does not count: clip time begins when playback does.
pub proof fn law_early_pause_is_ignored(anchor: Option<u64>, now: u64)
    ensures
        origin_at(None, anchor, now) == now,
        elapsed(now, now) == 0,
{
}

/// There is one live weight for each clip, and a ramp has one at either end.
pub open spec fn weighed<C>(b: TargetState<C>) -> bool {
    &&& b.current_weights@.len() == b.clips@.len()
    &&& b.transition matches Some(tr) ==> {
        &&& tr.source_weights@.len() == b.clips@.len()
        &&& tr.target_weights@.len() == b.clips@.len()
    }
}

/// A fresh system's buckets have one weight for each clip.
pub proof fn law_init_weighs_clips<C>(
    now: AnimationSystem<C>,
    anims: Seq<Animation<C>>,
    t: u32,
)
    requires
        now.has(t),
        now.clips_of(t) == added(anims, t, anims.len()),
        now.weights_of(t) == added_weights(anims, t, anims.len()),
        is_startup(now.clips_of(t), now.weights_of(t), None, now.transition_of(t)),
    ensures
        weighed(now.bucket(t)),
{
}

/// Advancing keeps one weight for each clip.
pub proof fn law_advance_keeps_weights<
    C,
    A: Fn(FloatBits, FloatBits) -> FloatBits,
    P: Fn(FloatBits, FloatBits, FloatBits) -> FloatBits,
    L: Fn(FloatBits, FloatBits, FloatBits) -> FloatBits,
>(
    sum: A,
    share: P,
    lerp: L,
    was: TargetState<C>,
    first: bool,
    t: FloatBits,
    now_secs: FloatBits,
    now: TargetState<C>,
)
    requires
        weighed(was),
        is_advanced(sum, share, lerp, was, anchored(was.transition, first, t), now_secs, now),
    ensures
        weighed(now),
{
}

/// An accepted request keeps one weight for each clip.
pub proof fn law_crossfade_keeps_weights<C>(
    sys: AnimationSystem<C>,
    req: Crossfade,
    now_secs: FloatBits,
    now: TargetState<C>,
)
    requires
        reply(sys, req) is Ok,
        weighed(sys.bucket(req.target)),
        now.clips == sys.bucket(req.target).clips,
        now.current_weights == sys.bucket(req.target).current_weights,
        is_crossfade(now.transition, now.current_weights@, req, now_secs),
    ensures
        weighed(now),
{
}

/// Of several requests for one target the last accepted one rules: no request after it
/// is accepted for the same target.
pub proof fn law_later_request_supersedes<C>(
    sys: AnimationSystem<C>,
    reqs: Seq<Crossfade>,
    t: u32,
    k: nat,
    i: int,
)
    requires
        k <= reqs.len(),
        0 <= i < k,
        reqs[i].target == t,
        reply(sys, reqs[i]) is Ok,
    ensures
        last_accepted(sys, reqs, t, k) is Some,
        i <= last_accepted(sys, reqs, t, k)->0 < k,
        reqs[last_accepted(sys, reqs, t, k)->0].target == t,
        reply(sys, reqs[last_accepted(sys, reqs, t, k)->0]) is Ok,
    decreases k,
{
    if i < k - 1 {
        law_later_request_supersedes(sys, reqs, t, (k - 1) as nat, i);
    }
}

/// A ramp begins once: after the first step no step moves its start.
pub proof fn law_ramp_begins_once(tr: Option<Transition>, t: FloatBits)
    ensures
        anchored(tr, false, t) == tr,
        tr is Some && unanchored(tr->0) ==> anchored(tr, true, t) == Some(
            (Transition { start_secs: t, ..tr->0 }),
        ),
{
}

/// While a ramp is under way, each weight that it moves is mixed from its source and its
/// target by the share of the ramp that has passed, `raw`: by that share itself where it
/// lies between nothing and the whole, by the whole where it is more, and by nothing where
/// it is less. The ramp goes on.
pub proof fn law_ramp_mixes_by_the_share_passed<
    C,
    A: Fn(FloatBits, FloatBits) -> FloatBits,
    P: Fn(FloatBits, FloatBits, FloatBits) -> FloatBits,
    L: Fn(FloatBits, FloatBits, FloatBits) -> FloatBits,
>(
    sum: A,
    share: P,
    lerp: L,
    was: TargetState<C>,
    tr: Transition,
    now_secs: FloatBits,
    now: TargetState<C>,
    end: FloatBits,
    raw: FloatBits,
    i: int,
)
    requires
        weighed(was),
        was.transition == Some(tr),
        is_advanced(sum, share, lerp, was, Some(tr), now_secs, now),
        // The ramp has a length, ends at `end`, and that is still to come.
        (FloatBits { bits: 0 }).less(tr.duration_secs),
        forall|e: FloatBits| #[trigger]
            call_ensures(sum, (tr.start_secs, tr.duration_secs), e) ==> e == end,
        now_secs.less(end),
        forall|r: FloatBits| #[trigger]
            call_ensures(share, (now_secs, tr.start_secs, tr.duration_secs), r) ==> r == raw,
        !raw.nan(),
        0 <= i < was.clips@.len(),
    ensures
        now.transition == Some(tr),
        now.current_weights@.len() == was.clips@.len(),
        // Between nothing and the whole: the patterns from that of zero to that of one.
        raw.bits <= 0x3f80_0000 ==> call_ensures(
            lerp,
            (tr.source_weights@[i], tr.target_weights@[i], raw),
            now.current_weights@[i],
        ),
        0x3f80_0000 < raw.bits < 0x8000_0000 ==> call_ensures(
            lerp,
            (tr.source_weights@[i], tr.target_weights@[i], FloatBits { bits: 0x3f80_0000 }),
            now.current_weights@[i],
        ),
        raw.bits > 0x8000_0000 ==> call_ensures(
            lerp,
            (tr.source_weights@[i], tr.target_weights@[i], FloatBits { bits: 0 }),
            now.current_weights@[i],
        ),
{
    assert(!is_finished(sum, tr, now_secs, true));
    let r = choose|r: FloatBits|
        {
            &&& #[trigger] call_ensures(share, (now_secs, tr.start_secs, tr.duration_secs), r)
            &&& is_between(
                lerp,
                was.current_weights@,
                tr,
                r.clamped(zero(), one()),
                now.current_weights@,
            )
        };
    assert(r == raw);
    let w = now.current_weights@[i];
}

/// A ramp ends at its target: once its end has come, or at once where it has no length,
/// the weights are the target's and there is no ramp any more.
pub proof fn law_ramp_ends_at_its_target<
    C,
    A: Fn(FloatBits, FloatBits) -> FloatBits,
    P: Fn(FloatBits, FloatBits, FloatBits) -> FloatBits,
    L: Fn(FloatBits, FloatBits, FloatBits) -> FloatBits,
>(
    sum: A,
    share: P,
    lerp: L,
    was: TargetState<C>,
    tr: Transition,
    now_secs: FloatBits,
    now: TargetState<C>,
    end: FloatBits,
)
    requires
        is_advanced(sum, share, lerp, was, Some(tr), now_secs, now),
        !tr.duration_secs.nan(),
        forall|e: FloatBits| #[trigger]
            call_ensures(sum, (tr.start_secs, tr.duration_secs), e) ==> e == end,
        tr.duration_secs.bits == 0 || tr.duration_secs.bits >= 0x8000_0000 || end.at_most(now_secs),
    ensures
        now.current_weights@ == tr.target_weights@,
        now.transition is None,
        now.clips == was.clips,
{
}

/// Without a ramp the weights stand still.
pub proof fn law_no_ramp_no_change<
    C,
    A: Fn(FloatBits, FloatBits) -> FloatBits,
    P: Fn(FloatBits, FloatBits, FloatBits) -> FloatBits,
    L: Fn(FloatBits, FloatBits, FloatBits) -> FloatBits,
>(
    sum: A,
    share: P,
    lerp: L,
    was: TargetState<C>,
    now_secs: FloatBits,
    now: TargetState<C>,
)
    requires
        is_advanced(sum, share, lerp, was, None, now_secs, now),
    ensures
        now.current_weights@ == was.current_weights@,
        now.clips == was.clips,
        now.transition is None,
{
}

/// An accepted crossfade leads from the weights as they stood when it was asked for to the
/// weights that were asked for, in the time that was asked for: it begins at the moment of
/// the request, and a step at or past its end gives exactly the weights of the request.
pub proof fn law_crossfade_reaches_the_request<
    C,
    A: Fn(FloatBits, FloatBits) -> FloatBits,
    P: Fn(FloatBits, FloatBits, FloatBits) -> FloatBits,
    L: Fn(FloatBits, FloatBits, FloatBits) -> FloatBits,
>(
    sum: A,
    share: P,
    lerp: L,
    req: Crossfade,
    asked_at: FloatBits,
    was: TargetState<C>,
    tr: Transition,
    now_secs: FloatBits,
    now: TargetState<C>,
    end: FloatBits,
)
    requires
        is_crossfade(Some(tr), was.current_weights@, req, asked_at),
        !req.duration_secs.nan(),
        is_advanced(sum, share, lerp, was, Some(tr), now_secs, now),
        forall|e: FloatBits| #[trigger]
            call_ensures(sum, (asked_at, req.duration_secs), e) ==> e == end,
        req.duration_secs.bits == 0 || req.duration_secs.bits >= 0x8000_0000 || end.at_most(
            now_secs,
        ),
    ensures
        tr.source_weights@ == was.current_weights@,
        tr.target_weights@ == req.weights@,
        tr.start_secs == asked_at,
        0 < req.duration_secs.bits < 0x8000_0000 ==> tr.duration_secs == req.duration_secs,
        now.current_weights@ == req.weights@,
        now.transition is None,
{
}

/// Every declared animation is a clip of its target, after the earlier ones of the same
/// target: with its clip and its weight. It starts without weight where it fades in, and
/// with its own weight where it does not.
pub proof fn law_declared_animation_is_a_clip<C>(
    anims: Seq<Animation<C>>,
    t: u32,
    j: nat,
    n: nat,
)
    requires
        j < n <= anims.len(),
        anims[j as int].target == Some(t),
        !anims[j as int].fade_in_secs.nan(),
    ensures
        ({
            let a = anims[j as int];
            let at = added(anims, t, j).len() as int;
            &&& at < added(anims, t, n).len()
            &&& added(anims, t, n)[at].clip == a.clip
            &&& added(anims, t, n)[at].declared_weight == a.weight
            &&& 0 < a.fade_in_secs.bits < 0x8000_0000 ==> added(anims, t, n)[at].fade_in_secs
                == a.fade_in_secs
            &&& a.fade_in_secs.bits > 0x8000_0000 ==> added(anims, t, n)[at].fade_in_secs.bits == 0
            &&& added_weights(anims, t, n).len() == added(anims, t, n).len()
            &&& 0 < a.fade_in_secs.bits < 0x8000_0000 ==> added_weights(anims, t, n)[at].bits == 0
            &&& a.fade_in_secs.bits == 0 || a.fade_in_secs.bits >= 0x8000_0000 ==> added_weights(
                anims,
                t,
                n,
            )[at] == a.weight
        }),
    decreases n,
{
    if j + 1 < n {
        law_declared_animation_is_a_clip(anims, t, j, (n - 1) as nat);
        let at = added(anims, t, j).len() as int;
        assert(added(anims, t, n)[at] == added(anims, t, (n - 1) as nat)[at]);
    }
}

/// A target has as many new clips as there are animations declared for it.
pub proof fn law_clips_are_declared<C>(anims: Seq<Animation<C>>, t: u32, n: nat, i: int)
    requires
        n <= anims.len(),
        0 <= i < added(anims, t, n).len(),
    ensures
        exists|j: int|
            0 <= j < n && (#[trigger] anims[j]).target == Some(t) && added(anims, t, j as nat).len()
                == i,
    decreases n,
{
    if n > 0 {
        let before = added(anims, t, (n - 1) as nat);
        if i < before.len() {
            law_clips_are_declared(anims, t, (n - 1) as nat, i);
            let j = choose|j: int|
                0 <= j < n - 1 && (#[trigger] anims[j]).target == Some(t) && added(
                    anims,
                    t,
                    j as nat,
                ).len() == i;
            assert(anims[j].target == Some(t));
        } else {
            assert(anims[n - 1].target == Some(t));
        }
    }
}

/// The fade of a start-up ramp is that of a clip, and no clip's is longer.
pub proof fn law_startup_fade_is_the_longest<C>(
    clips: Seq<ClipEntry<C>>,
    weights: Seq<FloatBits>,
    now: Option<Transition>,
    i: int,
)
    requires
        is_startup(clips, weights, None, now),
        forall|k: int| 0 <= k < clips.len() ==> !(#[trigger] clips[k]).fade_in_secs.nan(),
        0 <= i < clips.len(),
    ensures
        now is None ==> clips[i].fade_in_secs.bits == 0 || clips[i].fade_in_secs.bits
            >= 0x8000_0000,
        now is Some ==> {
            &&& clips[i].fade_in_secs.at_most(now->0.duration_secs)
            &&& exists|k: int|
                0 <= k < clips.len() && (#[trigger] clips[k]).fade_in_secs == now->0.duration_secs
            &&& now->0.source_weights@ == weights
            &&& now->0.target_weights@.len() == clips.len()
            &&& now->0.target_weights@[i] == clips[i].declared_weight
            &&& now->0.start_secs.bits == 0
        },
{
    lemma_longest_fade(clips, clips.len(), i);
}

proof fn lemma_longest_fade<C>(clips: Seq<ClipEntry<C>>, n: nat, i: int)
    requires
        n <= clips.len(),
        forall|k: int| 0 <= k < clips.len() ==> !(#[trigger] clips[k]).fade_in_secs.nan(),
    ensures
        !longest_fade(clips, n).nan(),
        0 <= i < n ==> clips[i].fade_in_secs.at_most(longest_fade(clips, n)),
        zero().less(longest_fade(clips, n)) ==> exists|k: int|
            0 <= k < n && (#[trigger] clips[k]).fade_in_secs == longest_fade(clips, n),
        longest_fade(clips, n).rank() >= 0,
    decreases n,
{
    if n > 0 {
        lemma_longest_fade(clips, (n - 1) as nat, i);
        let last = clips[n - 1];
        let before = longest_fade(clips, (n - 1) as nat);
        if longest_fade(clips, n) == before && zero().less(before) {
            let k = choose|k: int|
                0 <= k < n - 1 && (#[trigger] clips[k]).fade_in_secs == before;
            assert(clips[k].fade_in_secs == longest_fade(clips, n));
        } else if zero().less(longest_fade(clips, n)) {
            assert(last.fade_in_secs == longest_fade(clips, n));
        }
    }
}

/// A reload entry names the place of its clip: among the clips of its target, with the
/// ones that were there before, it is where the animation's clip stands.
pub proof fn law_reload_entry_finds_its_clip<C>(
    sys: AnimationSystem<C>,
    anims: Seq<Animation<C>>,
    n: nat,
    m: int,
)
    requires
        n <= anims.len(),
        forall|t: u32| #[trigger]
            sys.clips_of(t).len() + added(anims, t, n).len() <= usize::MAX,
        0 <= m < captured(sys, anims, true, n).len(),
    ensures
        ({
            let e = captured(sys, anims, true, n)[m];
            let clips = sys.clips_of(e.target) + added(anims, e.target, n);
            &&& e.clip_index < clips.len()
            &&& exists|j: int|
                0 <= j < n && {
                    let a = #[trigger] anims[j];
                    &&& a.target == Some(e.target)
                    &&& a.source@.len() > 0
                    &&& e.source == a.source
                    &&& e.animation_index == a.animation_index
                    &&& e.animation_name == a.animation_name
                    &&& e.weight == a.weight
                    &&& e.looping == a.looping
                    &&& clips[e.clip_index as int].clip == a.clip
                }
        }),
    decreases n,
{
    let prev = captured(sys, anims, true, (n - 1) as nat);
    let e = captured(sys, anims, true, n)[m];
    assert(sys.clips_of(e.target).len() + added(anims, e.target, n).len() <= usize::MAX);
    let clips = sys.clips_of(e.target) + added(anims, e.target, n);
    if m < prev.len() {
        assert forall|t: u32| #[trigger] sys.clips_of(t).len() + added(
            anims,
            t,
            (n - 1) as nat,
        ).len() <= usize::MAX by {
            assert(sys.clips_of(t).len() + added(anims, t, n).len() <= usize::MAX);
        }
        law_reload_entry_finds_its_clip(sys, anims, (n - 1) as nat, m);
        assert(e == prev[m]);
        let old_clips = sys.clips_of(e.target) + added(anims, e.target, (n - 1) as nat);
        assert(clips[e.clip_index as int] == old_clips[e.clip_index as int]);
        let j = choose|j: int|
            0 <= j < n - 1 && {
                let a = #[trigger] anims[j];
                &&& a.target == Some(e.target)
                &&& a.source@.len() > 0
                &&& e.source == a.source
                &&& e.animation_index == a.animation_index
                &&& e.animation_name == a.animation_name
                &&& e.weight == a.weight
                &&& e.looping == a.looping
                &&& old_clips[e.clip_index as int].clip == a.clip
            };
        assert(anims[j].target == Some(e.target));
    } else {
        let a = anims[n - 1];
        assert(a.target == Some(e.target));
        assert(clips[e.clip_index as int] == entry_of(a));
    }
}

/// Where entries are captured, every file-backed animation with a target has one; where
/// they are not, there are none.
pub proof fn law_file_backed_clip_is_captured<C>(
    sys: AnimationSystem<C>,
    anims: Seq<Animation<C>>,
    n: nat,
    j: int,
)
    requires
        n <= anims.len(),
        0 <= j < n,
        anims[j].target is Some,
        anims[j].source@.len() > 0,
    ensures
        captured(sys, anims, false, n).len() == 0,
        exists|m: int|
            0 <= m < captured(sys, anims, true, n).len() && {
                let e = #[trigger] captured(sys, anims, true, n)[m];
                &&& Some(e.target) == anims[j].target
                &&& e.source == anims[j].source
                &&& e.animation_index == anims[j].animation_index
            },
    decreases n,
{
    let now = captured(sys, anims, true, n);
    let prev = captured(sys, anims, true, (n - 1) as nat);
    lemma_nothing_captured(sys, anims, n);
    if j < n - 1 {
        law_file_backed_clip_is_captured(sys, anims, (n - 1) as nat, j);
        let m = choose|m: int|
            0 <= m < prev.len() && {
                let e = #[trigger] prev[m];
                &&& Some(e.target) == anims[j].target
                &&& e.source == anims[j].source
                &&& e.animation_index == anims[j].animation_index
            };
        assert(now[m] == prev[m]);
    } else {
        assert(now[prev.len() as int].source == anims[j].source);
    }
}

proof fn lemma_nothing_captured<C>(sys: AnimationSystem<C>, anims: Seq<Animation<C>>, n: nat)
    ensures
        captured(sys, anims, false, n).len() == 0,
    decreases n,
{
    if n > 0 {
        lemma_nothing_captured(sys, anims, (n - 1) as nat);
    }
}

/// Clip time is the time since its origin, and none before it. The origin is the first
/// step where there was none; while nothing pauses it stays, and a pause that ends moves it
/// by as long as the pause took.
pub proof fn law_clip_time_runs_from_its_origin(origin: u64, anchor: u64, now: u64)
    ensures
        origin <= now ==> elapsed(origin, now) == now - origin,
        now <= origin ==> elapsed(origin, now) == 0,
        origin_at(None, None, now) == now,
        origin_at(None, Some(anchor), now) == now,
        origin_at(Some(origin), None, now) == origin,
        anchor <= now ==> origin_at(Some(origin), Some(anchor), now) == origin + (now - anchor),
        now <= anchor ==> origin_at(Some(origin), Some(anchor), now) == origin,
        anchor <= now ==> moved_origin(origin, anchor, now) == origin + (now - anchor),
{
}

/// A target's clips, weights and ramp are those of the bucket that bears its name; without
/// one it has none.
pub proof fn law_target_has_its_bucket<C>(sys: AnimationSystem<C>, t: u32, i: int)
    requires
        sys.wf(),
    ensures
        sys.has(t) <==> exists|k: int|
            0 <= k < sys.buckets@.len() && (#[trigger] sys.buckets@[k]).target == t,
        0 <= i < sys.buckets@.len() && sys.buckets@[i].target == t ==> {
            &&& sys.bucket(t) == sys.buckets@[i]
            &&& sys.clips_of(t) == sys.buckets@[i].clips@
            &&& sys.weights_of(t) == sys.buckets@[i].current_weights@
            &&& sys.transition_of(t) == sys.buckets@[i].transition
        },
        !sys.has(t) ==> sys.clips_of(t).len() == 0 && sys.weights_of(t).len() == 0
            && sys.transition_of(t) is None,
{
    if sys.has(t) {
        assert(sys.buckets@[sys.index@[t] as int].target == t);
    }
    if 0 <= i < sys.buckets@.len() && sys.buckets@[i].target == t {
        assert(sys.index@[sys.buckets@[i].target] == i);
    }
}

/// A request is accepted exactly where some bucket bears its target's name and it gives one
/// weight for each clip there; a refusal says which of the two it lacks, and the counts.
pub proof fn law_request_is_answered<C>(sys: AnimationSystem<C>, req: Crossfade, i: int)
    requires
        sys.wf(),
    ensures
        (forall|k: int|
            0 <= k < sys.buckets@.len() ==> (#[trigger] sys.buckets@[k]).target != req.target)
            ==> reply(sys, req) == Err::<(), CrossfadeError>(
            CrossfadeError::UnknownTarget { target: req.target },
        ),
        0 <= i < sys.buckets@.len() && sys.buckets@[i].target == req.target ==> {
            let clips = sys.buckets@[i].clips@.len();
            &&& reply(sys, req) is Ok <==> req.weights@.len() == clips
            &&& req.weights@.len() != clips ==> reply(sys, req) == Err::<(), CrossfadeError>(
                CrossfadeError::WeightCount {
                    weights: req.weights@.len() as usize,
                    clips: clips as usize,
                    target: req.target,
                },
            )
        },
{
    law_target_has_its_bucket(sys, req.target, i);
}

/// Requests change nothing but ramps: a target that none is accepted for ramps as before,
/// and one that some are accepted for ramps as the last of them asks, from the weights as
/// they stand, beginning now.
pub proof fn law_requests_change_only_ramps<C>(
    was: AnimationSystem<C>,
    now: AnimationSystem<C>,
    reqs: Seq<Crossfade>,
    now_secs: FloatBits,
    t: u32,
    i: int,
)
    requires
        has_crossfaded(was, now, reqs, now_secs, reqs.len()),
        now.has(t),
    ensures
        now.bucket(t).clips == was.bucket(t).clips,
        now.bucket(t).current_weights == was.bucket(t).current_weights,
        now.start == was.start && now.pause_anchor == was.pause_anchor && now.stepped
            == was.stepped && now.reload_entries == was.reload_entries,
        (forall|k: int|
            0 <= k < reqs.len() && (#[trigger] reqs[k]).target == t ==> reply(was, reqs[k]) is Err)
            ==> now.bucket(t).transition == was.bucket(t).transition,
        0 <= i < reqs.len() && reqs[i].target == t && reply(was, reqs[i]) is Ok && (forall|k: int|
            i < k < reqs.len() && (#[trigger] reqs[k]).target == t ==> reply(was, reqs[k]) is Err)
            ==> {
            let tr = now.bucket(t).transition;
            &&& tr is Some
            &&& tr->0.source_weights@ == was.bucket(t).current_weights@
            &&& tr->0.target_weights@ == reqs[i].weights@
            &&& tr->0.start_secs == now_secs
            &&& 0 < reqs[i].duration_secs.bits < 0x7f80_0000 ==> tr->0.duration_secs
                == reqs[i].duration_secs
            &&& 0x8000_0000 < reqs[i].duration_secs.bits <= 0xff80_0000
                ==> tr->0.duration_secs.bits == 0
        },
{
    let n = reqs.len();
    lemma_last_accepted(was, reqs, t, n);
    if 0 <= i < n && reqs[i].target == t && reply(was, reqs[i]) is Ok {
        law_later_request_supersedes(was, reqs, t, n, i);
    }
}

proof fn lemma_last_accepted<C>(
    sys: AnimationSystem<C>,
    reqs: Seq<Crossfade>,
    t: u32,
    k: nat,
)
    ensures
        last_accepted(sys, reqs, t, k) matches Some(i) ==> 0 <= i < k && reqs[i].target == t
            && reply(sys, reqs[i]) is Ok,
    decreases k,
{
    if k > 0 {
        lemma_last_accepted(sys, reqs, t, (k - 1) as nat);
    }
}

/// On the first step a ramp that starts at the origin starts there instead, with its ends
/// and its length kept; one that starts at any other moment keeps its start.
pub proof fn law_first_step_starts_waiting_ramps(tr: Transition, t: FloatBits)
    ensures
        ({
            let now = anchored(Some(tr), true, t);
            &&& now is Some
            &&& now->0.source_weights == tr.source_weights
            &&& now->0.target_weights == tr.target_weights
            &&& now->0.duration_secs == tr.duration_secs
            &&& tr.start_secs.bits == 0 || tr.start_secs.bits == 0x8000_0000
                ==> now->0.start_secs == t
            &&& tr.start_secs.bits != 0 && tr.start_secs.bits != 0x8000_0000
                ==> now->0.start_secs == tr.start_secs
        }),
        anchored(None, true, t) is None,
{
}

/// A list of samples holds that of each clip, at the moment asked for, in the clips' order.
pub proof fn law_samples_are_the_clips<C, J, F: Fn(&C, FloatBits) -> J>(
    sample: F,
    clips: Seq<ClipEntry<C>>,
    t: FloatBits,
    list: Seq<J>,
    i: int,
)
    requires
        are_samples(sample, clips, t, list),
        0 <= i < clips.len(),
    ensures
        list.len() == clips.len(),
        call_ensures(sample, (&clips[i].clip, t), list[i]),
{
    let j = list[i];
}

} // verus!
