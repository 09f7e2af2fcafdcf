//! One-time scene setup: picking the shaders and the single-instance assets,
//! releasing blobs, and linking props to their parents.

use crate::draw_list::Prop;
use crate::hot_reload_sources::{ShaderKind, ShaderStageSourceEntry, ShaderStageSourceMap};
use crate::mesh_load::Fault;
use crate::streaming::PayloadLocator;
use crate::tables::{AssetId, keys_of, lookup};
use crate::text::{decimal, push_decimal, same_text};
use std::collections::{HashMap, HashSet};
use vstd::prelude::*;

verus! {

/// A declared shader stage.
#[derive(Debug)]
pub struct ShaderStage {
    pub kind: ShaderKind,
    pub locator: Option<PayloadLocator>,
    /// The resolved source file to watch: none where the stage has no source for this
    /// platform or is built into the engine.
    pub watch_path: Option<String>,
}

/// Why the shaders cannot be picked.
#[derive(Debug, Clone, Copy, PartialEq, Eq, Structural)]
pub enum ShaderError {
    NoVertex,
    NoFragment,
    VertexWithoutPayload,
    FragmentWithoutPayload,
}

/// The stages a scene is drawn with, by their index.
#[derive(Debug, Clone, Copy, PartialEq, Eq, Structural)]
pub struct ShaderSet {
    pub vertex: usize,
    pub fragment: usize,
    pub instanced: Option<usize>,
}

/// The first stage of a kind.
pub open spec fn is_first_stage(stages: Seq<ShaderStage>, kind: ShaderKind, i: int) -> bool {
    &&& 0 <= i < stages.len()
    &&& stages[i].kind == kind
    &&& forall|j: int| 0 <= j < i ==> (#[trigger] stages[j]).kind != kind
}

/// No stage of a kind.
pub open spec fn no_stage(stages: Seq<ShaderStage>, kind: ShaderKind) -> bool {
    forall|i: int| 0 <= i < stages.len() ==> (#[trigger] stages[i]).kind != kind
}

/// Whether a stage is the first of a kind, or there is none.
pub open spec fn finds_stage(
    stages: Seq<ShaderStage>,
    kind: ShaderKind,
    found: Option<usize>,
) -> bool {
    match found {
        Some(i) => is_first_stage(stages, kind, i as int),
        None => no_stage(stages, kind),
    }
}

fn find_shader(stages: &Vec<ShaderStage>, kind: ShaderKind) -> (r: Option<usize>)
    ensures
        finds_stage(stages@, kind, r),
{
    let mut i: usize = 0;
    while i < stages.len()
        invariant
            i <= stages@.len(),
            forall|j: int| 0 <= j < i ==> (#[trigger] stages@[j]).kind != kind,
        decreases stages@.len() - i,
    {
        if stages[i].kind == kind {
            return Some(i);
        }
        i = i + 1;
    }
    None
}

/// Pick the first vertex, fragment and, where there is one, instanced vertex stage.
/// The vertex and the fragment stage must be there with a compiled payload.
pub fn pick_shaders(stages: &Vec<ShaderStage>) -> (r: Result<ShaderSet, ShaderError>)
    ensures
        match r {
            Ok(set) => {
                &&& is_first_stage(stages@, ShaderKind::Vertex, set.vertex as int)
                &&& is_first_stage(stages@, ShaderKind::Fragment, set.fragment as int)
                &&& finds_stage(stages@, ShaderKind::VertexInstanced, set.instanced)
                &&& stages@[set.vertex as int].locator is Some
                &&& stages@[set.fragment as int].locator is Some
            },
            Err(ShaderError::NoVertex) => no_stage(stages@, ShaderKind::Vertex),
            Err(ShaderError::NoFragment) => {
                &&& !no_stage(stages@, ShaderKind::Vertex)
                &&& no_stage(stages@, ShaderKind::Fragment)
            },
            Err(ShaderError::VertexWithoutPayload) => {
                &&& !no_stage(stages@, ShaderKind::Fragment)
                &&& exists|i: int| #[trigger]
                    is_first_stage(stages@, ShaderKind::Vertex, i) && stages@[i].locator is None
            },
            Err(ShaderError::FragmentWithoutPayload) => {
                &&& exists|i: int| #[trigger]
                    is_first_stage(stages@, ShaderKind::Vertex, i) && stages@[i].locator is Some
                &&& exists|i: int| #[trigger]
                    is_first_stage(stages@, ShaderKind::Fragment, i) && stages@[i].locator is None
            },
        },
{
    let instanced: Option<usize> = find_shader(stages, ShaderKind::VertexInstanced);
    let vertex: usize = match find_shader(stages, ShaderKind::Vertex) {
        Some(i) => i,
        None => {
            return Err(ShaderError::NoVertex);
        },
    };
    assert(stages@[vertex as int].kind == ShaderKind::Vertex);
    let fragment: usize = match find_shader(stages, ShaderKind::Fragment) {
        Some(i) => i,
        None => {
            return Err(ShaderError::NoFragment);
        },
    };
    assert(stages@[fragment as int].kind == ShaderKind::Fragment);
    if stages[vertex].locator.is_none() {
        return Err(ShaderError::VertexWithoutPayload);
    }
    if stages[fragment].locator.is_none() {
        return Err(ShaderError::FragmentWithoutPayload);
    }
    Ok(ShaderSet { vertex, fragment, instanced })
}

/// The stages of a set that have a file to watch, in the order vertex, fragment,
/// instanced.
pub open spec fn watched_stages(stages: Seq<ShaderStage>, set: ShaderSet) -> Seq<int> {
    let v = if stages[set.vertex as int].watch_path is Some {
        seq![set.vertex as int]
    } else {
        Seq::empty()
    };
    let f = if stages[set.fragment as int].watch_path is Some {
        seq![set.fragment as int]
    } else {
        Seq::empty()
    };
    let n = match set.instanced {
        Some(i) => if stages[i as int].watch_path is Some {
            seq![i as int]
        } else {
            Seq::empty()
        },
        None => Seq::empty(),
    };
    v + f + n
}

/// Whether an entry is what is captured of a stage.
pub open spec fn is_stage_entry(stage: ShaderStage, e: ShaderStageSourceEntry) -> bool {
    e.kind == stage.kind && stage.watch_path is Some && e.resolved_path@ == stage.watch_path->0@
}

fn capture_stage(map: &mut ShaderStageSourceMap, stage: &ShaderStage)
    ensures
        stage.watch_path is None ==> final(map).entries@ == old(map).entries@,
        stage.watch_path is Some ==> {
            &&& final(map).entries@.len() == old(map).entries@.len() + 1
            &&& final(map).entries@.drop_last() == old(map).entries@
            &&& is_stage_entry(*stage, final(map).entries@.last())
        },
{
    match &stage.watch_path {
        Some(path) => {
            let ghost was = map.entries@;
            map.entries.push(
                ShaderStageSourceEntry { kind: stage.kind, resolved_path: path.clone() },
            );
            assert(map.entries@.drop_last() =~= was);
        },
        None => {},
    }
}

/// Capture the files of the picked stages for reloading.
pub fn capture_shader_sources(
    stages: &Vec<ShaderStage>,
    set: &ShaderSet,
    capture_sources: bool,
) -> (r: ShaderStageSourceMap)
    requires
        set.vertex < stages@.len(),
        set.fragment < stages@.len(),
        set.instanced matches Some(i) ==> i < stages@.len(),
    ensures
        ({
            let picked = if capture_sources {
                watched_stages(stages@, *set)
            } else {
                Seq::empty()
            };
            &&& r.entries@.len() == picked.len()
            &&& forall|i: int|
                0 <= i < picked.len() ==> is_stage_entry(
                    stages@[picked[i]],
                    #[trigger] r.entries@[i],
                )
        }),
{
    let mut map: ShaderStageSourceMap = ShaderStageSourceMap::new();
    if capture_sources {
        let ghost m0 = map.entries@;
        capture_stage(&mut map, &stages[set.vertex]);
        let ghost m1 = map.entries@;
        capture_stage(&mut map, &stages[set.fragment]);
        let ghost m2 = map.entries@;
        match set.instanced {
            Some(i) => {
                capture_stage(&mut map, &stages[i]);
            },
            None => {},
        }
        proof {
            let picked = watched_stages(stages@, *set);
            assert forall|i: int| 0 <= i < picked.len() implies is_stage_entry(
                stages@[picked[i]],
                #[trigger] map.entries@[i],
            ) by {
                if m2.len() < map.entries@.len() {
                    assert(map.entries@.drop_last()[m2.len() - 1] == m2[m2.len() - 1] || m2.len()
                        == 0);
                }
                if i < m2.len() {
                    assert(map.entries@[i] == m2[i]) by {
                        if m2.len() < map.entries@.len() {
                            assert(map.entries@.drop_last()[i] == map.entries@[i]);
                        }
                    }
                    if i < m1.len() {
                        assert(m2[i] == m1[i]) by {
                            if m1.len() < m2.len() {
                                assert(m2.drop_last()[i] == m2[i]);
                            }
                        }
                    }
                }
            }
        }
    }
    map
}

/// The name of a built-in main shader.
pub open spec fn builtin_main(name: Option<String>) -> bool {
    name is Some && (name->0@ == "default_vert.hlsl"@ || name->0@ == "default_frag.hlsl"@
        || name->0@ == "default.metal"@)
}

fn is_builtin_main(name: &Option<String>) -> (r: bool)
    ensures
        r == builtin_main(*name),
{
    match name {
        Some(n) => same_text(n.as_str(), "default_vert.hlsl") || same_text(
            n.as_str(),
            "default_frag.hlsl",
        ) || same_text(n.as_str(), "default.metal"),
        None => false,
    }
}

/// Whether a scene is drawn by the built-in bindless pass: both main stages are
/// built in, so the shader bytes are left empty.
pub fn uses_builtin_pass(vertex_source: &Option<String>, fragment_source: &Option<String>) -> (r:
    bool)
    ensures
        r == (builtin_main(*vertex_source) && builtin_main(*fragment_source)),
{
    is_builtin_main(vertex_source) && is_builtin_main(fragment_source)
}

/// An asset of which a scene uses one: an environment map or a colour LUT.
#[derive(Debug)]
pub struct SingleAsset {
    pub asset_id: AssetId,
    /// The generator of a procedural asset, or nothing.
    pub generator: String,
    /// The file of a file-backed asset, or nothing.
    pub source: String,
    pub locator: Option<PayloadLocator>,
}

/// The asset a scene uses: its payload, and whether its file is watched.
#[derive(Debug, Clone, Copy)]
pub struct SinglePick {
    pub locator: PayloadLocator,
    pub watch_source: bool,
}

/// Pick the first asset; further ones are ignored. Fails with the id of a first asset
/// without a compiled payload.
pub fn pick_single(assets: &Vec<SingleAsset>, capture_sources: bool) -> (r: Result<
    Option<SinglePick>,
    AssetId,
>)
    ensures
        assets@.len() == 0 ==> r == Ok::<Option<SinglePick>, AssetId>(None),
        assets@.len() > 0 ==> match assets@[0].locator {
            None => r == Err::<Option<SinglePick>, AssetId>(assets@[0].asset_id),
            Some(l) => r matches Ok(Some(p)) && {
                &&& p.locator == l
                &&& p.watch_source == (capture_sources && assets@[0].generator@.len() == 0
                    && assets@[0].source@.len() > 0)
            },
        },
{
    if assets.len() == 0 {
        return Ok(None);
    }
    let first: &SingleAsset = &assets[0];
    match first.locator {
        None => Err(first.asset_id),
        Some(locator) => {
            let watch_source: bool = capture_sources && first.generator.as_str().unicode_len() == 0
                && first.source.as_str().unicode_len() > 0;
            Ok(Some(SinglePick { locator, watch_source }))
        },
    }
}

/// The first fog volume that is enabled, of a list of their enabled flags.
pub fn pick_fog(enabled: &Vec<bool>) -> (r: Option<usize>)
    ensures
        match r {
            Some(i) => i < enabled@.len() && enabled@[i as int] && forall|j: int|
                0 <= j < i ==> !(#[trigger] enabled@[j]),
            None => forall|j: int| 0 <= j < enabled@.len() ==> !(#[trigger] enabled@[j]),
        },
{
    let mut i: usize = 0;
    while i < enabled.len()
        invariant
            i <= enabled@.len(),
            forall|j: int| 0 <= j < i ==> !(#[trigger] enabled@[j]),
        decreases enabled@.len() - i,
    {
        if enabled[i] {
            return Some(i);
        }
        i = i + 1;
    }
    None
}

/// The first payload that cannot be used.
pub open spec fn first_fault<T>(items: Seq<Result<T, Fault>>, i: int) -> bool {
    &&& 0 <= i < items.len()
    &&& items[i] is Err
    &&& forall|j: int| 0 <= j < i ==> #[trigger] items[j] is Ok
}

/// The decoded payloads of a pool, in order; or the first one that cannot be used.
pub fn all_decoded<T>(items: Vec<Result<T, Fault>>) -> (r: Result<Vec<T>, (usize, Fault)>)
    ensures
        match r {
            Ok(out) => out@.len() == items@.len() && forall|i: int|
                0 <= i < items@.len() ==> #[trigger] items@[i] == Ok::<T, Fault>(out@[i]),
            Err((i, fault)) => first_fault(items@, i as int) && items@[i as int] == Err::<T, Fault>(
                fault,
            ),
        },
{
    let ghost all = items@;
    let count: usize = items.len();
    let mut out: Vec<T> = Vec::new();
    let mut k: usize = 0;
    for item in it: items.into_iter()
        invariant
            it.seq() == all,
            all == items@,
            all.len() == count,
            k == it.index(),
            out@.len() == k,
            forall|i: int| 0 <= i < k ==> #[trigger] all[i] == Ok::<T, Fault>(out@[i]),
    {
        assert(item == all[k as int]);
        match item {
            Ok(t) => {
                out.push(t);
            },
            Err(fault) => {
                return Err((k, fault));
            },
        }
        k = k + 1;
    }
    Ok(out)
}

/// The label of an SDF volume: its name, or one made of its id.
pub fn sdf_label(name: Option<String>, asset_id: AssetId) -> (r: String)
    ensures
        r@ == match name {
            Some(n) => n@,
            None => "sdf_volume_"@ + decimal(asset_id as nat),
        },
{
    match name {
        Some(n) => n,
        None => {
            let mut out: String = "sdf_volume_".to_string();
            push_decimal(&mut out, asset_id);
            out
        },
    }
}

/// The blobs that setup has read payloads from.
#[derive(Debug)]
pub struct BlobUses {
    pub vertex: u32,
    pub fragment: u32,
    pub instanced: Option<u32>,
    pub textures: Vec<PayloadLocator>,
    pub normal_maps: Vec<PayloadLocator>,
    pub rooms: Vec<u32>,
    pub fonts: Vec<u32>,
    pub skinned: Vec<u32>,
}

/// The blobs that systems which start later still read.
#[derive(Debug)]
pub struct BlobsInUse {
    pub audio: HashSet<u32>,
    pub sdf: HashSet<u32>,
    pub terrain: HashSet<u32>,
}

impl BlobsInUse {
    /// A later system still reads the blob.
    pub open spec fn needs(&self, blob: u32) -> bool {
        self.audio@.contains(blob) || self.sdf@.contains(blob) || self.terrain@.contains(blob)
    }
}

impl BlobUses {
    /// The blobs in the order in which they are released.
    pub open spec fn candidates(&self) -> Seq<u32> {
        seq![self.vertex, self.fragment] + (match self.instanced {
            Some(b) => seq![b],
            None => Seq::empty(),
        }) + self.textures@.map_values(|l: PayloadLocator| l.blob_index)
            + self.normal_maps@.map_values(|l: PayloadLocator| l.blob_index) + self.rooms@
            + self.fonts@ + self.skinned@
    }
}

/// The blobs released among the first `k` candidates: each once, and none that is
/// still needed.
pub open spec fn released(candidates: Seq<u32>, needed: BlobsInUse, k: nat) -> Seq<u32>
    decreases k,
{
    if k == 0 {
        Seq::empty()
    } else {
        let before = released(candidates, needed, (k - 1) as nat);
        let blob = candidates[k - 1];
        if needed.needs(blob) || before.contains(blob) {
            before
        } else {
            before.push(blob)
        }
    }
}

fn push_blobs(out: &mut Vec<u32>, locators: &Vec<PayloadLocator>)
    ensures
        final(out)@ == old(out)@ + locators@.map_values(|l: PayloadLocator| l.blob_index),
{
    let ghost was = out@;
    let ghost blobs = locators@.map_values(|l: PayloadLocator| l.blob_index);
    let mut i: usize = 0;
    while i < locators.len()
        invariant
            i <= locators@.len(),
            blobs == locators@.map_values(|l: PayloadLocator| l.blob_index),
            out@ == was + blobs.subrange(0, i as int),
        decreases locators@.len() - i,
    {
        out.push(locators[i].blob_index);
        i = i + 1;
        assert(out@ =~= was + blobs.subrange(0, i as int));
    }
    assert(blobs.subrange(0, i as int) =~= blobs);
}

fn push_all(out: &mut Vec<u32>, blobs: &Vec<u32>)
    ensures
        final(out)@ == old(out)@ + blobs@,
{
    let ghost was = out@;
    let mut i: usize = 0;
    while i < blobs.len()
        invariant
            i <= blobs@.len(),
            out@ == was + blobs@.subrange(0, i as int),
        decreases blobs@.len() - i,
    {
        out.push(blobs[i]);
        i = i + 1;
        assert(out@ =~= was + blobs@.subrange(0, i as int));
    }
    assert(blobs@.subrange(0, i as int) =~= blobs@);
}

/// The blobs to release once setup has read its payloads.
pub fn blobs_to_release(uses: &BlobUses, needed: &BlobsInUse) -> (r: Vec<u32>)
    ensures
        r@ == released(uses.candidates(), *needed, uses.candidates().len()),
{
    broadcast use vstd::std_specs::hash::group_hash_axioms;

    let mut all: Vec<u32> = Vec::new();
    all.push(uses.vertex);
    all.push(uses.fragment);
    match uses.instanced {
        Some(b) => {
            all.push(b);
        },
        None => {},
    }
    push_blobs(&mut all, &uses.textures);
    push_blobs(&mut all, &uses.normal_maps);
    push_all(&mut all, &uses.rooms);
    push_all(&mut all, &uses.fonts);
    push_all(&mut all, &uses.skinned);
    assert(all@ =~= uses.candidates());
    let mut seen: HashSet<u32> = HashSet::new();
    let mut out: Vec<u32> = Vec::new();
    let mut k: usize = 0;
    while k < all.len()
        invariant
            k <= all@.len(),
            out@ == released(all@, *needed, k as nat),
            forall|b: u32| #[trigger] seen@.contains(b) <==> out@.contains(b),
        decreases all@.len() - k,
    {
        broadcast use vstd::std_specs::hash::group_hash_axioms;

        let blob: u32 = all[k];
        let ghost was = out@;
        if !needed.audio.contains(&blob) && !needed.sdf.contains(&blob)
            && !needed.terrain.contains(&blob) && !seen.contains(&blob) {
            seen.insert(blob);
            out.push(blob);
            proof {
                assert(out@[was.len() as int] == blob);
                assert forall|b: u32| #[trigger] seen@.contains(b) <==> out@.contains(b) by {
                    if was.contains(b) {
                        let i = choose|i: int| 0 <= i < was.len() && was[i] == b;
                        assert(out@[i] == b);
                    }
                    if out@.contains(b) && b != blob {
                        let i = choose|i: int| 0 <= i < out@.len() && out@[i] == b;
                        assert(was[i] == b);
                    }
                }
            }
        }
        k = k + 1;
    }
    out
}

/// A blob is released exactly when setup read from it and nothing later needs it, and
/// then once.
pub proof fn law_blobs_released_once(candidates: Seq<u32>, needed: BlobsInUse, k: nat)
    requires
        k <= candidates.len(),
    ensures
        released(candidates, needed, k).no_duplicates(),
        forall|b: u32| #[trigger]
            released(candidates, needed, k).contains(b) <==> candidates.subrange(
                0,
                k as int,
            ).contains(b) && !needed.needs(b),
    decreases k,
{
    let now = released(candidates, needed, k);
    if k > 0 {
        law_blobs_released_once(candidates, needed, (k - 1) as nat);
        let before = released(candidates, needed, (k - 1) as nat);
        let head = candidates.subrange(0, k - 1);
        let next = candidates.subrange(0, k as int);
        let blob = candidates[k - 1];
        assert forall|b: u32| #[trigger] now.contains(b) <==> next.contains(b) && !needed.needs(
            b,
        ) by {
            assert(before.contains(b) <==> head.contains(b) && !needed.needs(b));
            if head.contains(b) {
                let i = choose|i: int| 0 <= i < head.len() && head[i] == b;
                assert(next[i] == b);
            }
            if next.contains(b) && b != blob {
                let i = choose|i: int| 0 <= i < next.len() && next[i] == b;
                assert(head[i] == b);
            }
            assert(next[k - 1] == blob);
            if before.contains(b) {
                let i = choose|i: int| 0 <= i < before.len() && before[i] == b;
                assert(now[i] == b);
            }
            if now.contains(b) && !before.contains(b) {
                let i = choose|i: int| 0 <= i < now.len() && now[i] == b;
                assert(i == before.len());
            }
            if b == blob && !needed.needs(blob) {
                assert(now.contains(b)) by {
                    if !before.contains(blob) {
                        assert(now[before.len() as int] == blob);
                    }
                }
            }
        }
    }
}

/// The last of the first `k` props with an id.
pub open spec fn last_prop(props: Seq<Prop>, k: nat, id: AssetId) -> Option<usize>
    decreases k,
{
    if k == 0 {
        None
    } else if props[k - 1].asset_id == id {
        Some((k - 1) as usize)
    } else {
        last_prop(props, (k - 1) as nat, id)
    }
}

/// The index of the parent of each prop; none where it has no parent or its parent
/// is not a prop.
pub fn prop_parents(props: &Vec<Prop>) -> (r: Vec<Option<usize>>)
    ensures
        r@.len() == props@.len(),
        forall|i: int|
            0 <= i < props@.len() ==> #[trigger] r@[i] == match props@[i].parent {
                Some(p) => last_prop(props@, props@.len(), p),
                None => None,
            },
{
    broadcast use vstd::std_specs::hash::group_hash_axioms;

    let mut by_id: HashMap<u32, usize> = HashMap::new();
    let mut k: usize = 0;
    while k < props.len()
        invariant
            k <= props@.len(),
            forall|id: u32|
                last_prop(props@, k as nat, id) == if #[trigger] by_id@.dom().contains(id) {
                    Some(by_id@[id])
                } else {
                    None
                },
        decreases props@.len() - k,
    {
        broadcast use vstd::std_specs::hash::group_hash_axioms;

        by_id.insert(props[k].asset_id, k);
        k = k + 1;
    }
    let mut out: Vec<Option<usize>> = Vec::new();
    let mut i: usize = 0;
    while i < props.len()
        invariant
            i <= props@.len(),
            k == props@.len(),
            out@.len() == i,
            forall|id: u32|
                last_prop(props@, k as nat, id) == if #[trigger] by_id@.dom().contains(id) {
                    Some(by_id@[id])
                } else {
                    None
                },
            forall|j: int|
                0 <= j < i ==> #[trigger] out@[j] == match props@[j].parent {
                    Some(p) => last_prop(props@, props@.len(), p),
                    None => None,
                },
        decreases props@.len() - i,
    {
        let parent: Option<usize> = match props[i].parent {
            Some(p) => match lookup(&by_id, p) {
                Some(j) => Some(*j),
                None => None,
            },
            None => None,
        };
        out.push(parent);
        i = i + 1;
    }
    out
}

/// A parent is a prop with the id that the child names.
pub proof fn law_parent_has_named_id(props: Seq<Prop>, k: nat, id: AssetId)
    requires
        k <= props.len() <= usize::MAX,
    ensures
        match last_prop(props, k, id) {
            Some(i) => i < k && props[i as int].asset_id == id && forall|j: int|
                i < j < k ==> (#[trigger] props[j]).asset_id != id,
            None => forall|j: int| 0 <= j < k ==> (#[trigger] props[j]).asset_id != id,
        },
    decreases k,
{
    if k > 0 {
        law_parent_has_named_id(props, (k - 1) as nat, id);
    }
}

/// How the cursor is handled at the start.
#[derive(Debug, Clone, Copy, PartialEq, Eq, Structural)]
pub struct StartupCursor {
    /// The cursor is captured and freed as menus close and open.
    pub menu_mode: bool,
    /// The cursor is captured at once.
    pub capture: bool,
}

/// Decide the cursor handling: a camera with a user interface is driven by its menus,
/// a camera alone captures the cursor, and without a camera the cursor stays free.
pub fn startup_cursor(has_camera: bool, has_hit_region: bool, has_key_binding: bool) -> (r:
    StartupCursor)
    ensures
        r.menu_mode == (has_camera && (has_hit_region || has_key_binding)),
        r.capture == (has_camera && !has_hit_region && !has_key_binding),
{
    let has_ui: bool = has_hit_region || has_key_binding;
    StartupCursor { menu_mode: has_camera && has_ui, capture: has_camera && !has_ui }
}

/// The reflection probes to place: the declared ones; without any, the seeded ones;
/// without those, none.
pub fn probes_to_place<T>(declared: Vec<T>, seeded: Option<Vec<T>>) -> (r: Vec<T>)
    ensures
        r@ == if declared@.len() > 0 {
            declared@
        } else {
            match seeded {
                Some(s) => s@,
                None => Seq::empty(),
            }
        },
{
    if declared.len() > 0 {
        declared
    } else {
        match seeded {
            Some(s) => s,
            None => Vec::new(),
        }
    }
}

/// The first draw of every mesh that is drawn: a geometry template to copy from.
pub fn first_draws(draws: &HashMap<u32, Vec<usize>>) -> (r: HashMap<u32, usize>)
    ensures
        forall|id: u32|
            #[trigger] r@.dom().contains(id) <==> draws@.dom().contains(id)
                && draws@[id]@.len() > 0,
        forall|id: u32| #[trigger] r@.dom().contains(id) ==> r@[id] == draws@[id]@[0],
{
    broadcast use vstd::std_specs::hash::group_hash_axioms;

    let ids: Vec<AssetId> = keys_of(draws);
    let mut out: HashMap<u32, usize> = HashMap::new();
    let mut k: usize = 0;
    while k < ids.len()
        invariant
            k <= ids@.len(),
            forall|id: u32|
                #[trigger] out@.dom().contains(id) <==> ids@.subrange(0, k as int).contains(id)
                    && draws@.dom().contains(id) && draws@[id]@.len() > 0,
            forall|id: u32| #[trigger] out@.dom().contains(id) ==> out@[id] == draws@[id]@[0],
        decreases ids@.len() - k,
    {
        broadcast use vstd::std_specs::hash::group_hash_axioms;

        let ghost head = ids@.subrange(0, k as int);
        let ghost next = ids@.subrange(0, k + 1);
        let ghost was = out@;
        let id: AssetId = ids[k];
        match lookup(draws, id) {
            Some(list) => {
                if list.len() > 0 {
                    out.insert(id, list[0]);
                }
            },
            None => {},
        }
        proof {
            assert(next[k as int] == id);
            assert forall|i: u32| #[trigger] out@.dom().contains(i) <==> next.contains(i)
                && draws@.dom().contains(i) && draws@[i]@.len() > 0 by {
                assert(was.dom().contains(i) <==> head.contains(i) && draws@.dom().contains(i)
                    && draws@[i]@.len() > 0);
                if head.contains(i) {
                    let j = choose|j: int| 0 <= j < head.len() && head[j] == i;
                    assert(next[j] == i);
                }
                if next.contains(i) && i != id {
                    let j = choose|j: int| 0 <= j < next.len() && next[j] == i;
                    assert(head[j] == i);
                }
            }
        }
        k = k + 1;
    }
    proof {
        assert(ids@.subrange(0, k as int) =~= ids@);
        assert forall|id: u32| ids@.contains(id) <==> #[trigger] draws@.dom().contains(id) by {
            assert(ids@.contains(id) <==> ids@.to_set().contains(id));
        }
    }
    out
}

/// A blob may be released exactly where setup read a payload from it: a shader, a texture, a
/// normal map, a room, a font or a skinned mesh.
pub proof fn law_candidates_are_the_blobs_read(uses: BlobUses, blob: u32)
    ensures
        uses.candidates().contains(blob) <==> {
            ||| blob == uses.vertex
            ||| blob == uses.fragment
            ||| uses.instanced == Some(blob)
            ||| exists|i: int|
                0 <= i < uses.textures@.len() && (#[trigger] uses.textures@[i]).blob_index == blob
            ||| exists|i: int|
                0 <= i < uses.normal_maps@.len() && (
                #[trigger] uses.normal_maps@[i]).blob_index == blob
            ||| uses.rooms@.contains(blob)
            ||| uses.fonts@.contains(blob)
            ||| uses.skinned@.contains(blob)
        },
{
    let all = uses.candidates();
    let head = seq![uses.vertex, uses.fragment] + (match uses.instanced {
        Some(b) => seq![b],
        None => Seq::empty(),
    });
    let textures = uses.textures@.map_values(|l: PayloadLocator| l.blob_index);
    let normals = uses.normal_maps@.map_values(|l: PayloadLocator| l.blob_index);
    let a = head.len() as int;
    let b = a + textures.len();
    let c = b + normals.len();
    let d = c + uses.rooms@.len();
    let e = d + uses.fonts@.len();
    assert(all[0] == uses.vertex);
    assert(all[1] == uses.fragment);
    if uses.instanced is Some {
        assert(all[2] == uses.instanced->0);
    }
    assert forall|i: int| 0 <= i < textures.len() implies all[a + i] == (
    #[trigger] uses.textures@[i]).blob_index by {}
    assert forall|i: int| 0 <= i < normals.len() implies all[b + i] == (
    #[trigger] uses.normal_maps@[i]).blob_index by {}
    assert forall|i: int| 0 <= i < uses.rooms@.len() implies all[c + i]
        == #[trigger] uses.rooms@[i] by {}
    assert forall|i: int| 0 <= i < uses.fonts@.len() implies all[d + i]
        == #[trigger] uses.fonts@[i] by {}
    assert forall|i: int| 0 <= i < uses.skinned@.len() implies all[e + i]
        == #[trigger] uses.skinned@[i] by {}
    if all.contains(blob) {
        let i = choose|i: int| 0 <= i < all.len() && all[i] == blob;
        if a <= i < b {
            assert(uses.textures@[i - a].blob_index == blob);
        } else if b <= i < c {
            assert(uses.normal_maps@[i - b].blob_index == blob);
        } else if c <= i < d {
            assert(uses.rooms@[i - c] == blob);
        } else if d <= i < e {
            assert(uses.fonts@[i - d] == blob);
        } else if e <= i {
            assert(uses.skinned@[i - e] == blob);
        }
    }
}

/// A picked stage is watched exactly where it has a file to watch, the vertex stage before
/// the fragment stage and both before the instanced one.
pub proof fn law_picked_stages_are_watched(stages: Seq<ShaderStage>, set: ShaderSet)
    ensures
        ({
            let w = watched_stages(stages, set);
            let v = stages[set.vertex as int].watch_path is Some;
            let f = stages[set.fragment as int].watch_path is Some;
            let n = set.instanced is Some && stages[set.instanced->0 as int].watch_path is Some;
            &&& w.len() == (if v {
                1int
            } else {
                0
            }) + (if f {
                1int
            } else {
                0
            }) + (if n {
                1int
            } else {
                0
            })
            &&& v ==> w[0] == set.vertex
            &&& f ==> w[if v {
                1int
            } else {
                0
            }] == set.fragment
            &&& n ==> w.last() == set.instanced->0
        }),
{
}

/// The stage that is found for a kind is of that kind, and no stage before it is; where none
/// is found, no stage is of that kind.
pub proof fn law_first_stage_of_a_kind_is_found(
    stages: Seq<ShaderStage>,
    kind: ShaderKind,
    found: Option<usize>,
    j: int,
)
    requires
        finds_stage(stages, kind, found),
        0 <= j < stages.len(),
        stages[j].kind == kind,
    ensures
        found is Some,
        found->0 <= j,
        stages[found->0 as int].kind == kind,
        is_first_stage(stages, kind, found->0 as int),
        !no_stage(stages, kind),
{
    if found is Some && found->0 > j {
        assert(stages[j].kind != kind);
    }
}

/// A stage's entry names its kind and the file to watch, of a stage that has one.
pub proof fn law_stage_entry_names_its_file(stage: ShaderStage, e: ShaderStageSourceEntry)
    requires
        is_stage_entry(stage, e),
    ensures
        e.kind == stage.kind,
        stage.watch_path matches Some(path) && e.resolved_path@ == path@,
{
}

/// The first fault is a fault, and everything before it is in order.
pub proof fn law_nothing_before_the_first_fault<T>(items: Seq<Result<T, Fault>>, i: int, j: int)
    requires
        first_fault(items, i),
        0 <= j < items.len(),
        items[j] is Err,
    ensures
        items[i] is Err,
        i <= j,
{
}

/// The engine's own main shaders are the three by name, and nothing else is.
pub proof fn law_builtin_shaders_by_name(name: Option<String>)
    ensures
        name is None ==> !builtin_main(name),
        name is Some ==> (builtin_main(name) <==> name->0@ == "default_vert.hlsl"@ || name->0@
            == "default_frag.hlsl"@ || name->0@ == "default.metal"@),
{
}

} // verus!
