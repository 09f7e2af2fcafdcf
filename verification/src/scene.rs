//! Scenes: which draws belong to which, and the reel that plays them in turn.

use crate::float_bits::FloatBits;
use crate::tables::{AssetId, lookup_entity};
use std::collections::HashMap;
use vstd::prelude::*;

verus! {

/// The draw slots of an entity.
#[derive(Debug)]
pub struct EntityDraws {
    pub entity: u64,
    pub draws: Vec<u32>,
}

/// Slots widened to indices.
pub open spec fn widened(slots: Seq<u32>) -> Seq<usize> {
    Seq::new(slots.len(), |i: int| slots[i] as usize)
}

/// The draws of every entity with the scene it belongs to; an entity without a scene
/// is always visible. `members` gives the scene of each member.
pub fn decomposed_visibility_snapshot(
    handles: &Vec<EntityDraws>,
    members: &HashMap<u64, AssetId>,
) -> (r: (Vec<Vec<usize>>, Vec<Option<AssetId>>))
    ensures
        r.0@.len() == handles@.len(),
        r.1@.len() == handles@.len(),
        forall|i: int|
            0 <= i < handles@.len() ==> (#[trigger] r.0@[i])@ == widened(handles@[i].draws@),
        forall|i: int|
            0 <= i < handles@.len() ==> #[trigger] r.1@[i] == if members@.dom().contains(
                handles@[i].entity,
            ) {
                Some(members@[handles@[i].entity])
            } else {
                None
            },
{
    let mut draws: Vec<Vec<usize>> = Vec::new();
    let mut scenes: Vec<Option<AssetId>> = Vec::new();
    let mut k: usize = 0;
    while k < handles.len()
        invariant
            k <= handles@.len(),
            draws@.len() == k,
            scenes@.len() == k,
            forall|i: int| 0 <= i < k ==> (#[trigger] draws@[i])@ == widened(handles@[i].draws@),
            forall|i: int|
                0 <= i < k ==> #[trigger] scenes@[i] == if members@.dom().contains(
                    handles@[i].entity,
                ) {
                    Some(members@[handles@[i].entity])
                } else {
                    None
                },
        decreases handles@.len() - k,
    {
        let h: &EntityDraws = &handles[k];
        let mut slots: Vec<usize> = Vec::new();
        let mut i: usize = 0;
        while i < h.draws.len()
            invariant
                i <= h.draws@.len(),
                slots@ == widened(h.draws@).subrange(0, i as int),
            decreases h.draws@.len() - i,
        {
            slots.push(h.draws[i] as usize);
            i = i + 1;
            assert(slots@ =~= widened(h.draws@).subrange(0, i as int));
        }
        assert(slots@ =~= widened(h.draws@));
        draws.push(slots);
        let scene: Option<AssetId> = match lookup_entity(members, h.entity) {
            Some(s) => Some(*s),
            None => None,
        };
        scenes.push(scene);
        k = k + 1;
    }
    (draws, scenes)
}

/// A declared scene.
#[derive(Debug)]
pub struct Scene {
    pub asset_id: AssetId,
    pub duration_secs: Option<FloatBits>,
    pub transition: String,
}

/// A declared reel: the scenes it plays, and where it starts.
#[derive(Debug)]
pub struct SceneReel {
    pub asset_id: AssetId,
    pub scenes: Vec<AssetId>,
    pub start_index: u32,
    pub looping: bool,
}

/// One scene of a reel.
#[derive(Debug)]
pub struct ReelEntry {
    pub scene: AssetId,
    pub duration_secs: Option<FloatBits>,
    pub transition: String,
}

/// A reel at its start.
#[derive(Debug)]
pub struct ReelStart {
    pub entries: Vec<ReelEntry>,
    pub current_idx: usize,
    pub looping: bool,
}

/// The last of the first `k` scenes with an id.
pub open spec fn last_scene(scenes: Seq<Scene>, id: AssetId, k: nat) -> Option<int>
    decreases k,
{
    if k == 0 {
        None
    } else if scenes[k - 1].asset_id == id {
        Some(k - 1)
    } else {
        last_scene(scenes, id, (k - 1) as nat)
    }
}

/// Whether an entry plays a scene: with the scene's duration and transition, and with
/// a cut without end where the scene is not declared.
pub open spec fn is_entry(scenes: Seq<Scene>, id: AssetId, e: ReelEntry) -> bool {
    &&& e.scene == id
    &&& match last_scene(scenes, id, scenes.len()) {
        Some(i) => e.duration_secs == scenes[i].duration_secs && e.transition@
            == scenes[i].transition@,
        None => e.duration_secs is None && e.transition@ == "Cut"@,
    }
}

fn find_scene(scenes: &Vec<Scene>, id: AssetId) -> (r: Option<usize>)
    ensures
        match r {
            Some(i) => last_scene(scenes@, id, scenes@.len()) == Some(i as int) && i < scenes@.len(),
            None => last_scene(scenes@, id, scenes@.len()) is None,
        },
{
    let mut found: Option<usize> = None;
    let mut k: usize = 0;
    while k < scenes.len()
        invariant
            k <= scenes@.len(),
            match found {
                Some(i) => last_scene(scenes@, id, k as nat) == Some(i as int) && i < k,
                None => last_scene(scenes@, id, k as nat) is None,
            },
        decreases scenes@.len() - k,
    {
        if scenes[k].asset_id == id {
            found = Some(k);
        }
        k = k + 1;
    }
    found
}

/// Set up the reel: its entries, and where it starts, at most at its last scene. A reel
/// without scenes is ignored.
pub fn setup_scene_reel(scenes: &Vec<Scene>, reel: &SceneReel) -> (r: Option<ReelStart>)
    ensures
        match r {
            None => reel.scenes@.len() == 0,
            Some(start) => {
                &&& reel.scenes@.len() > 0
                &&& start.entries@.len() == reel.scenes@.len()
                &&& forall|i: int|
                    0 <= i < reel.scenes@.len() ==> is_entry(
                        scenes@,
                        reel.scenes@[i],
                        #[trigger] start.entries@[i],
                    )
                &&& start.current_idx == if reel.start_index < reel.scenes@.len() {
                    reel.start_index as int
                } else {
                    reel.scenes@.len() - 1
                }
                &&& start.looping == reel.looping
            },
        },
{
    if reel.scenes.len() == 0 {
        return None;
    }
    let mut entries: Vec<ReelEntry> = Vec::new();
    let mut k: usize = 0;
    while k < reel.scenes.len()
        invariant
            k <= reel.scenes@.len(),
            entries@.len() == k,
            forall|i: int|
                0 <= i < k ==> is_entry(scenes@, reel.scenes@[i], #[trigger] entries@[i]),
        decreases reel.scenes@.len() - k,
    {
        let scene: AssetId = reel.scenes[k];
        let entry: ReelEntry = match find_scene(scenes, scene) {
            Some(i) => ReelEntry {
                scene,
                duration_secs: scenes[i].duration_secs,
                transition: scenes[i].transition.clone(),
            },
            None => ReelEntry { scene, duration_secs: None, transition: "Cut".to_string() },
        };
        entries.push(entry);
        k = k + 1;
    }
    let last: usize = entries.len() - 1;
    let current_idx: usize = if (reel.start_index as usize) < last {
        reel.start_index as usize
    } else {
        last
    };
    Some(ReelStart { entries, current_idx, looping: reel.looping })
}

/// A slot is the same number once widened, and no slot is added or dropped.
pub proof fn law_widening_keeps_slots(slots: Seq<u32>, i: int)
    requires
        0 <= i < slots.len(),
    ensures
        widened(slots).len() == slots.len(),
        widened(slots)[i] == slots[i],
{
}

/// An entry plays the last scene declared with its id, for as long and with the transition
/// that the scene declares; an id that no scene has is cut to, without end.
pub proof fn law_entry_plays_its_scene(scenes: Seq<Scene>, id: AssetId, e: ReelEntry, i: int)
    requires
        is_entry(scenes, id, e),
        0 <= i < scenes.len(),
    ensures
        e.scene == id,
        scenes[i].asset_id == id && (forall|j: int|
            i < j < scenes.len() ==> (#[trigger] scenes[j]).asset_id != id) ==> e.duration_secs
            == scenes[i].duration_secs && e.transition@ == scenes[i].transition@,
        (forall|j: int| 0 <= j < scenes.len() ==> (#[trigger] scenes[j]).asset_id != id)
            ==> e.duration_secs is None && e.transition@ == "Cut"@,
{
    lemma_last_scene(scenes, id, scenes.len());
    if scenes[i].asset_id == id && (forall|j: int|
        i < j < scenes.len() ==> (#[trigger] scenes[j]).asset_id != id) {
        let l = last_scene(scenes, id, scenes.len());
        assert(l is Some);
        assert(l->0 == i) by {
            if l->0 > i {
                assert(scenes[l->0].asset_id != id);
            }
            if l->0 < i {
                assert(scenes[i].asset_id != id);
            }
        }
    }
}

proof fn lemma_last_scene(scenes: Seq<Scene>, id: AssetId, k: nat)
    requires
        k <= scenes.len(),
    ensures
        match last_scene(scenes, id, k) {
            Some(i) => 0 <= i < k && scenes[i].asset_id == id && forall|j: int|
                i < j < k ==> (#[trigger] scenes[j]).asset_id != id,
            None => forall|j: int| 0 <= j < k ==> (#[trigger] scenes[j]).asset_id != id,
        },
    decreases k,
{
    if k > 0 {
        lemma_last_scene(scenes, id, (k - 1) as nat);
    }
}

} // verus!
