//! Catalogues of the file-backed assets that can be reloaded while running: where
//! each came from and which GPU slots or draws it owns.

use crate::float_bits::FloatBits;
use crate::path_order::{
    PathOrder, among, by_slashes, components, distinct_dirs, follows, in_slashes, is_order,
    may_be_same, names_dir, optional_texts, root, slash_order, texts, unique_dirs,
};
use crate::tables::copied;
use vstd::prelude::*;

verus! {

/// Declares the outside type `serde_json::Value`. A value of it is carried through
/// and never looked into.
#[verifier::external_type_specification]
#[verifier::external_body]
pub struct ExValue(serde_json::Value);

/// A character that separates path components on some platform.
pub open spec fn separates(c: char) -> bool {
    c == '/' || c == '\\' || c == ':'
}

/// A single component.
pub open spec fn is_bare(s: Seq<char>) -> bool {
    s.len() > 0 && forall|i: int| 0 <= i < s.len() ==> !separates(#[trigger] s[i])
}

/// A path in slashes whose last component is what stands behind the slash at `cut`: one
/// slash, between a path that ends in a component and a component that is no dot.
pub open spec fn splits_at(s: Seq<char>, cut: int) -> bool {
    &&& 0 < cut < s.len() - 1
    &&& s[cut] == '/'
    &&& forall|i: int| 0 <= i < s.len() ==> #[trigger] s[i] != '\\' && s[i] != ':'
    &&& forall|i: int| cut < i < s.len() ==> #[trigger] s[i] != '/'
    &&& !(s.len() == cut + 2 && s[cut + 1] == '.')
    &&& s[cut - 1] != '/'
    &&& !(cut >= 2 && s[cut - 2] == '/' && s[cut - 1] == '.')
    &&& !(s[0] == '/' && s[1] == '/')
}

/// A path directly under the root: the root and a component that is no dot.
pub open spec fn under_root(s: Seq<char>) -> bool {
    &&& s.len() > 1
    &&& s[0] == '/'
    &&& is_bare(s.subrange(1, s.len() as int))
    &&& s.subrange(1, s.len() as int) != seq!['.']
}

/// What holds of the parent directory of a source on every platform. A path in slashes
/// has one unless it is empty or the root, and its components are those of the path but
/// for the last; what is said besides is how it is spelled.
pub open spec fn is_parent(source: Seq<char>, parent: Option<Seq<char>>) -> bool {
    &&& source.len() == 0 ==> parent is None
    &&& is_bare(source) ==> parent == Some(Seq::<char>::empty())
    &&& under_root(source) ==> parent == Some(root())
    &&& forall|cut: int| #[trigger]
        splits_at(source, cut) ==> parent == Some(source.subrange(0, cut))
    &&& in_slashes(source) ==> match parent {
        None => components(source).len() == 0 || components(source).last() == root(),
        Some(p) => {
            &&& components(source).len() > 0
            &&& components(source).last() != root()
            &&& in_slashes(p)
            &&& components(p) == components(source).drop_last()
        },
    }
}

/// The characters of an optional text.
pub open spec fn optional_text(s: Option<String>) -> Option<Seq<char>> {
    match s {
        Some(t) => Some(t@),
        None => None,
    }
}

/// `std::path::Path::parent`: the path without its final component. Claimed is that the
/// empty path has none, that a single component has the empty one, that a component
/// directly under the root has the root, that a path in slashes has what stands before the
/// last slash, and of any path in slashes that its parent is in slashes and has all but the
/// last of its components, or that it has no parent where it has no components or is the
/// root. Nothing is said of a path in another platform's separators, nor of how the parent
/// is spelled of a path with doubled slashes or a dot component at its end.
#[verifier::external_body]
fn parent_dir(source: &str) -> (r: Option<String>)
    ensures
        is_parent(source@, optional_text(r)),
{
    match std::path::Path::new(source).parent() {
        Some(p) => Some(p.to_string_lossy().into_owned()),
        None => None,
    }
}

/// Whether a list has one parent directory for each source.
pub open spec fn are_parents(
    sources: Seq<Seq<char>>,
    parents: Seq<Option<Seq<char>>>,
) -> bool {
    &&& parents.len() == sources.len()
    &&& forall|i: int| 0 <= i < sources.len() ==> is_parent(sources[i], #[trigger] parents[i])
}

/// `Ord` of `std::path::Path`: which of two paths comes first, or whether they are the same.
/// Claimed is that paths in slashes compare as their components do, one by one. Nothing is
/// said of a path in another platform's separators or with a drive or a share in front.
#[verifier::external_body]
fn compare_paths(a: &String, b: &String) -> (r: PathOrder)
    ensures
        in_slashes(a@) && in_slashes(b@) ==> r == slash_order(a@, b@),
{
    match std::path::Path::new(a).cmp(std::path::Path::new(b)) {
        std::cmp::Ordering::Less => PathOrder::Before,
        std::cmp::Ordering::Equal => PathOrder::Same,
        std::cmp::Ordering::Greater => PathOrder::After,
    }
}

/// Whether the platform compares the directories of a list by an order.
pub closed spec fn platform_follows(
    order: spec_fn(Seq<char>, Seq<char>) -> PathOrder,
    parents: Seq<Option<Seq<char>>>,
) -> bool {
    follows(compare_paths, order, parents)
}

/// Whether the platform may find two paths to be the same.
pub closed spec fn platform_may_find_same(a: Seq<char>, b: Seq<char>) -> bool {
    may_be_same(compare_paths, a, b)
}

/// Every directory of a list is in slashes.
pub open spec fn all_in_slashes(parents: Seq<Option<Seq<char>>>) -> bool {
    forall|i: int| 0 <= i < parents.len() && names_dir(#[trigger] parents[i]) ==> in_slashes(
        parents[i]->0,
    )
}

/// Whether a directory is on a list, or one that the platform finds to be the same.
#[verifier::opaque]
pub open spec fn is_listed(dirs: Seq<Seq<char>>, p: Seq<char>) -> bool {
    exists|k: int|
        0 <= k < dirs.len() && (#[trigger] dirs[k] == p || platform_may_find_same(dirs[k], p))
}

/// Whether `dirs` lists the directories among `parents`, all of them and nothing else:
/// the distinct ones, in whatever order the platform compares them by. Of directories in
/// slashes that order is known.
pub open spec fn lists_dirs(parents: Seq<Option<Seq<char>>>, dirs: Seq<Seq<char>>) -> bool {
    &&& forall|k: int| 0 <= k < dirs.len() ==> among(parents, #[trigger] dirs[k])
    &&& forall|i: int|
        0 <= i < parents.len() && names_dir(#[trigger] parents[i]) ==> is_listed(
            dirs,
            parents[i]->0,
        )
    &&& forall|order: spec_fn(Seq<char>, Seq<char>) -> PathOrder|
        is_order(order) && #[trigger] platform_follows(order, parents) ==> distinct_dirs(
            order,
            parents,
            dirs,
        )
    &&& all_in_slashes(parents) ==> distinct_dirs(by_slashes(), parents, dirs)
}

/// The platform compares directories in slashes by their components.
pub proof fn law_slashes_compare_alike(parents: Seq<Option<Seq<char>>>)
    requires
        all_in_slashes(parents),
    ensures
        is_order(by_slashes()),
        platform_follows(by_slashes(), parents),
{
    crate::path_order::law_slashes_are_ordered();
}

/// A list of watched directories: the distinct ones among the sources' parents.
pub open spec fn watches(sources: Seq<Seq<char>>, dirs: Seq<Seq<char>>) -> bool {
    exists|parents: Seq<Option<Seq<char>>>|
        #![trigger lists_dirs(parents, dirs)]
        are_parents(sources, parents) && lists_dirs(parents, dirs)
}

/// The distinct parent directories of a list of sources, in path order. A source
/// without a parent directory has none to watch.
fn parent_dirs(sources: &Vec<&String>) -> (r: Vec<String>)
    ensures
        watches(Seq::new(sources@.len(), |i: int| sources@[i]@), texts(r@)),
{
    let ghost all = Seq::new(sources@.len(), |i: int| sources@[i]@);
    let mut parents: Vec<Option<String>> = Vec::new();
    let mut i: usize = 0;
    while i < sources.len()
        invariant
            i <= sources@.len(),
            parents@.len() == i,
            forall|k: int|
                0 <= k < i ==> is_parent(sources@[k]@, optional_text(#[trigger] parents@[k])),
        decreases sources@.len() - i,
    {
        let p: Option<String> = parent_dir(sources[i].as_str());
        parents.push(p);
        i = i + 1;
    }
    let dirs: Vec<String> = unique_dirs(&parents, &compare_paths);
    proof {
        let ps = optional_texts(parents@);
        assert forall|k: int| 0 <= k < all.len() implies is_parent(all[k], #[trigger] ps[k]) by {
            assert(ps[k] == optional_text(parents@[k]));
        }
        assert(are_parents(all, ps));
        assert forall|i: int| 0 <= i < ps.len() && names_dir(#[trigger] ps[i]) implies is_listed(
            texts(dirs@),
            ps[i]->0,
        ) by {
            assert(crate::path_order::is_held(compare_paths, texts(dirs@), ps[i]->0));
            reveal(is_listed);
        }
        assert forall|order: spec_fn(Seq<char>, Seq<char>) -> PathOrder|
            is_order(order) && #[trigger] platform_follows(order, ps) implies distinct_dirs(
            order,
            ps,
            texts(dirs@),
        ) by {
            assert(follows(compare_paths, order, ps));
        }
        if all_in_slashes(ps) {
            law_slashes_compare_alike(ps);
        }
        assert(lists_dirs(ps, texts(dirs@)));
    }
    dirs
}

/// Which pool a texture's slot lives in.
#[derive(Debug, Clone, Copy, PartialEq, Eq, Structural)]
pub enum TextureKind {
    /// The albedo pool.
    Albedo,
    /// The normal-map pool, whose slot zero is the flat fallback.
    NormalMap,
}

/// A file-backed texture and the slot it owns.
#[derive(Debug)]
pub struct TextureSourceEntry {
    pub source: String,
    /// The image of a multi-image file.
    pub image_index: u32,
    pub slot: usize,
    pub kind: TextureKind,
}

/// The colour-grading table.
#[derive(Debug)]
pub struct ColorLutSource {
    pub resolved_path: String,
}

/// The environment map and the sizes it was baked with.
#[derive(Debug)]
pub struct EnvironmentMapSource {
    pub resolved_path: String,
    pub prefilter_face_size: u32,
    pub irradiance_face_size: u32,
    pub prefilter_samples: u32,
}

/// A file-backed mesh and every draw that got a copy of its geometry.
#[derive(Debug)]
pub struct MeshSourceEntry {
    pub source: String,
    pub primitive_index: u32,
    pub lod_levels: u32,
    pub lod_distances: Vec<FloatBits>,
    pub draw_indices: Vec<usize>,
}

/// The file-backed meshes.
#[derive(Debug)]
pub struct MeshSourceMap {
    pub entries: Vec<MeshSourceEntry>,
}

impl MeshSourceMap {
    pub fn new() -> (r: Self)
        ensures
            r.entries@ == Seq::<MeshSourceEntry>::empty(),
    {
        MeshSourceMap { entries: Vec::new() }
    }

    pub fn is_empty(&self) -> (r: bool)
        ensures
            r == (self.entries@.len() == 0),
    {
        self.entries.len() == 0
    }

    pub fn len(&self) -> (r: usize)
        ensures
            r == self.entries@.len(),
    {
        self.entries.len()
    }

    /// The directories to watch.
    pub fn watch_dirs(&self) -> (r: Vec<String>)
        ensures
            watches(
                Seq::new(self.entries@.len(), |i: int| self.entries@[i].source@),
                texts(r@),
            ),
    {
        let mut sources: Vec<&String> = Vec::new();
        let mut i: usize = 0;
        while i < self.entries.len()
            invariant
                i <= self.entries@.len(),
                sources@.len() == i,
                forall|k: int| 0 <= k < i ==> *(#[trigger] sources@[k]) == self.entries@[k].source,
            decreases self.entries@.len() - i,
        {
            sources.push(&self.entries[i].source);
            i = i + 1;
        }
        assert(Seq::new(sources@.len(), |i: int| sources@[i]@) =~= Seq::new(
            self.entries@.len(),
            |i: int| self.entries@[i].source@,
        ));
        parent_dirs(&sources)
    }
}

/// A generated mesh, the arguments it was last generated from, and its draws.
#[derive(Debug)]
pub struct ProceduralMeshSourceEntry {
    pub name: String,
    pub args: serde_json::Value,
    pub draw_indices: Vec<usize>,
}

/// The generated meshes.
#[derive(Debug)]
pub struct ProceduralMeshSourceMap {
    pub entries: Vec<ProceduralMeshSourceEntry>,
}

impl ProceduralMeshSourceMap {
    pub fn new() -> (r: Self)
        ensures
            r.entries@ == Seq::<ProceduralMeshSourceEntry>::empty(),
    {
        ProceduralMeshSourceMap { entries: Vec::new() }
    }

    pub fn is_empty(&self) -> (r: bool)
        ensures
            r == (self.entries@.len() == 0),
    {
        self.entries.len() == 0
    }

    pub fn len(&self) -> (r: usize)
        ensures
            r == self.entries@.len(),
    {
        self.entries.len()
    }

    /// Add a generated mesh. One that nothing draws has nothing to reload and is
    /// left out.
    pub fn capture(&mut self, name: String, args: serde_json::Value, draws: Option<&Vec<usize>>)
        ensures
            draws is Some && draws->0@.len() > 0 ==> {
                &&& final(self).entries@.len() == old(self).entries@.len() + 1
                &&& final(self).entries@.drop_last() == old(self).entries@
                &&& final(self).entries@.last().name == name
                &&& final(self).entries@.last().args == args
                &&& final(self).entries@.last().draw_indices@ == draws->0@
            },
            !(draws is Some && draws->0@.len() > 0) ==> final(self).entries@ == old(self).entries@,
    {
        match draws {
            Some(d) => {
                if d.len() > 0 {
                    let ghost was = self.entries@;
                    let draw_indices: Vec<usize> = copied(d);
                    self.entries.push(ProceduralMeshSourceEntry { name, args, draw_indices });
                    assert(self.entries@.drop_last() =~= was);
                }
            },
            None => {},
        }
    }
}

/// Which shader a stage is.
#[derive(Debug, Clone, Copy, PartialEq, Eq, Structural)]
pub enum ShaderKind {
    Vertex,
    Fragment,
    VertexInstanced,
}

/// A shader stage and the file it was compiled from.
#[derive(Debug)]
pub struct ShaderStageSourceEntry {
    pub kind: ShaderKind,
    pub resolved_path: String,
}

/// The file-backed shader stages.
#[derive(Debug)]
pub struct ShaderStageSourceMap {
    pub entries: Vec<ShaderStageSourceEntry>,
}

impl ShaderStageSourceMap {
    pub fn new() -> (r: Self)
        ensures
            r.entries@ == Seq::<ShaderStageSourceEntry>::empty(),
    {
        ShaderStageSourceMap { entries: Vec::new() }
    }

    pub fn is_empty(&self) -> (r: bool)
        ensures
            r == (self.entries@.len() == 0),
    {
        self.entries.len() == 0
    }

    pub fn len(&self) -> (r: usize)
        ensures
            r == self.entries@.len(),
    {
        self.entries.len()
    }

    /// The directories to watch.
    pub fn watch_dirs(&self) -> (r: Vec<String>)
        ensures
            watches(
                Seq::new(self.entries@.len(), |i: int| self.entries@[i].resolved_path@),
                texts(r@),
            ),
    {
        let mut sources: Vec<&String> = Vec::new();
        let mut i: usize = 0;
        while i < self.entries.len()
            invariant
                i <= self.entries@.len(),
                sources@.len() == i,
                forall|k: int|
                    0 <= k < i ==> *(#[trigger] sources@[k]) == self.entries@[k].resolved_path,
            decreases self.entries@.len() - i,
        {
            sources.push(&self.entries[i].resolved_path);
            i = i + 1;
        }
        assert(Seq::new(sources@.len(), |i: int| sources@[i]@) =~= Seq::new(
            self.entries@.len(),
            |i: int| self.entries@[i].resolved_path@,
        ));
        parent_dirs(&sources)
    }
}

/// A file-backed skinned mesh and the one draw slot it owns.
#[derive(Debug)]
pub struct SkinnedMeshSourceEntry {
    pub source: String,
    pub skinned_index: usize,
    pub vertex_base: u16,
    pub vertex_count: usize,
    pub index_count: usize,
    pub joint_count: usize,
}

/// The file-backed skinned meshes.
#[derive(Debug)]
pub struct SkinnedMeshSourceMap {
    pub entries: Vec<SkinnedMeshSourceEntry>,
}

impl SkinnedMeshSourceMap {
    pub fn new() -> (r: Self)
        ensures
            r.entries@ == Seq::<SkinnedMeshSourceEntry>::empty(),
    {
        SkinnedMeshSourceMap { entries: Vec::new() }
    }

    pub fn is_empty(&self) -> (r: bool)
        ensures
            r == (self.entries@.len() == 0),
    {
        self.entries.len() == 0
    }

    pub fn len(&self) -> (r: usize)
        ensures
            r == self.entries@.len(),
    {
        self.entries.len()
    }

    /// The directories to watch.
    pub fn watch_dirs(&self) -> (r: Vec<String>)
        ensures
            watches(
                Seq::new(self.entries@.len(), |i: int| self.entries@[i].source@),
                texts(r@),
            ),
    {
        let mut sources: Vec<&String> = Vec::new();
        let mut i: usize = 0;
        while i < self.entries.len()
            invariant
                i <= self.entries@.len(),
                sources@.len() == i,
                forall|k: int| 0 <= k < i ==> *(#[trigger] sources@[k]) == self.entries@[k].source,
            decreases self.entries@.len() - i,
        {
            sources.push(&self.entries[i].source);
            i = i + 1;
        }
        assert(Seq::new(sources@.len(), |i: int| sources@[i]@) =~= Seq::new(
            self.entries@.len(),
            |i: int| self.entries@[i].source@,
        ));
        parent_dirs(&sources)
    }
}

/// The file-backed textures.
#[derive(Debug)]
pub struct TextureSourceMap {
    pub entries: Vec<TextureSourceEntry>,
}

impl TextureSourceMap {
    pub fn new() -> (r: Self)
        ensures
            r.entries@ == Seq::<TextureSourceEntry>::empty(),
    {
        TextureSourceMap { entries: Vec::new() }
    }

    /// Add an albedo texture.
    pub fn push_albedo(&mut self, source: String, image_index: u32, slot: usize)
        ensures
            final(self).entries@ == old(self).entries@.push(
                TextureSourceEntry { source, image_index, slot, kind: TextureKind::Albedo },
            ),
    {
        self.entries.push(
            TextureSourceEntry { source, image_index, slot, kind: TextureKind::Albedo },
        );
    }

    /// Add a normal map.
    pub fn push_normal_map(&mut self, source: String, image_index: u32, slot: usize)
        ensures
            final(self).entries@ == old(self).entries@.push(
                TextureSourceEntry { source, image_index, slot, kind: TextureKind::NormalMap },
            ),
    {
        self.entries.push(
            TextureSourceEntry { source, image_index, slot, kind: TextureKind::NormalMap },
        );
    }

    /// The directories to watch.
    pub fn watch_dirs(&self) -> (r: Vec<String>)
        ensures
            watches(
                Seq::new(self.entries@.len(), |i: int| self.entries@[i].source@),
                texts(r@),
            ),
    {
        let mut sources: Vec<&String> = Vec::new();
        let mut i: usize = 0;
        while i < self.entries.len()
            invariant
                i <= self.entries@.len(),
                sources@.len() == i,
                forall|k: int| 0 <= k < i ==> *(#[trigger] sources@[k]) == self.entries@[k].source,
            decreases self.entries@.len() - i,
        {
            sources.push(&self.entries[i].source);
            i = i + 1;
        }
        assert(Seq::new(sources@.len(), |i: int| sources@[i]@) =~= Seq::new(
            self.entries@.len(),
            |i: int| self.entries@[i].source@,
        ));
        parent_dirs(&sources)
    }

    pub fn is_empty(&self) -> (r: bool)
        ensures
            r == (self.entries@.len() == 0),
    {
        self.entries.len() == 0
    }

    pub fn len(&self) -> (r: usize)
        ensures
            r == self.entries@.len(),
    {
        self.entries.len()
    }
}

/// All catalogues, handed to the reload drive as one.
#[derive(Debug)]
pub struct HotReloadSources {
    pub map: TextureSourceMap,
    pub color_lut: Option<ColorLutSource>,
    pub environment_map: Option<EnvironmentMapSource>,
    pub meshes: MeshSourceMap,
    pub skinned_meshes: SkinnedMeshSourceMap,
    pub procedural_meshes: ProceduralMeshSourceMap,
    pub shader_stages: ShaderStageSourceMap,
    pub world_jsonl_path: Option<String>,
}

impl HotReloadSources {
    /// Whether nothing was captured.
    pub open spec fn nothing(&self) -> bool {
        &&& self.map.entries@.len() == 0
        &&& self.color_lut is None
        &&& self.environment_map is None
        &&& self.meshes.entries@.len() == 0
        &&& self.skinned_meshes.entries@.len() == 0
        &&& self.procedural_meshes.entries@.len() == 0
        &&& self.shader_stages.entries@.len() == 0
        &&& self.world_jsonl_path is None
    }

    /// What init keeps of the captured catalogues: them all where sources are
    /// captured and at least one is there.
    pub fn keep_if_any(self, capture_sources: bool) -> (r: Option<HotReloadSources>)
        ensures
            capture_sources && !self.nothing() ==> r == Some(self),
            !(capture_sources && !self.nothing()) ==> r is None,
    {
        if capture_sources && (!self.map.is_empty() || self.color_lut.is_some()
            || self.environment_map.is_some() || !self.meshes.is_empty()
            || !self.skinned_meshes.is_empty() || !self.procedural_meshes.is_empty()
            || !self.shader_stages.is_empty() || self.world_jsonl_path.is_some()) {
            Some(self)
        } else {
            None
        }
    }
}

/// Every source of a list is in slashes.
pub open spec fn sources_in_slashes(sources: Seq<Seq<char>>) -> bool {
    forall|i: int| 0 <= i < sources.len() ==> in_slashes(#[trigger] sources[i])
}

/// Of sources in slashes the watched directories are in slashes, in path order, and none
/// is there twice, under any spelling.
pub proof fn law_watch_dirs_distinct(sources: Seq<Seq<char>>, dirs: Seq<Seq<char>>, i: int, j: int)
    requires
        watches(sources, dirs),
        sources_in_slashes(sources),
        0 <= i < j < dirs.len(),
    ensures
        in_slashes(dirs[i]),
        in_slashes(dirs[j]),
        components(dirs[i]) != components(dirs[j]),
        crate::path_order::comes_before(components(dirs[i]), components(dirs[j])),
{
    let parents = choose|parents: Seq<Option<Seq<char>>>|
        #![trigger lists_dirs(parents, dirs)]
        are_parents(sources, parents) && lists_dirs(parents, dirs);
    lemma_parents_in_slashes(sources, parents);
    assert(distinct_dirs(by_slashes(), parents, dirs));
    assert(among(parents, dirs[i]) && among(parents, dirs[j]));
    let order = by_slashes();
    assert(order(dirs[i], dirs[j]) == PathOrder::Before);
}

proof fn lemma_parents_in_slashes(sources: Seq<Seq<char>>, parents: Seq<Option<Seq<char>>>)
    requires
        are_parents(sources, parents),
        sources_in_slashes(sources),
    ensures
        all_in_slashes(parents),
{
    assert forall|i: int| 0 <= i < parents.len() && names_dir(#[trigger] parents[i]) implies in_slashes(
        parents[i]->0,
    ) by {
        assert(is_parent(sources[i], parents[i]));
        assert(in_slashes(sources[i]));
    }
}

/// Of sources in slashes the directory of every one that has one is watched, under some
/// spelling.
pub proof fn law_source_directory_is_watched(
    sources: Seq<Seq<char>>,
    dirs: Seq<Seq<char>>,
    i: int,
)
    requires
        watches(sources, dirs),
        sources_in_slashes(sources),
        0 <= i < sources.len(),
        components(sources[i]).len() >= 2,
    ensures
        exists|k: int|
            0 <= k < dirs.len() && components(#[trigger] dirs[k]) == components(
                sources[i],
            ).drop_last(),
{
    let parents = choose|parents: Seq<Option<Seq<char>>>|
        #![trigger lists_dirs(parents, dirs)]
        are_parents(sources, parents) && lists_dirs(parents, dirs);
    lemma_parents_in_slashes(sources, parents);
    assert(is_parent(sources[i], parents[i]));
    crate::path_order::lemma_root_is_first(sources[i], components(sources[i]).len() - 1);
    let p = parents[i]->0;
    if p.len() == 0 {
        assert(components(p).len() == 0);
    }
    assert(names_dir(parents[i]));
    assert(crate::path_order::has_place(by_slashes(), dirs, p));
    lemma_place_is_spelling(dirs, p);
}

proof fn lemma_place_is_spelling(dirs: Seq<Seq<char>>, p: Seq<char>)
    requires
        crate::path_order::has_place(by_slashes(), dirs, p),
    ensures
        exists|k: int|
            0 <= k < dirs.len() && components(#[trigger] dirs[k]) == components(p),
{
    reveal(crate::path_order::has_place);
    let order = by_slashes();
    let k = choose|k: int| 0 <= k < dirs.len() && order(#[trigger] dirs[k], p) == PathOrder::Same;
    assert(slash_order(dirs[k], p) == PathOrder::Same);
}

/// Of sources in slashes every watched directory is that of one of them.
pub proof fn law_watched_is_a_source_directory(
    sources: Seq<Seq<char>>,
    dirs: Seq<Seq<char>>,
    d: int,
)
    requires
        watches(sources, dirs),
        sources_in_slashes(sources),
        0 <= d < dirs.len(),
    ensures
        exists|k: int|
            0 <= k < sources.len() && components(#[trigger] sources[k]).len() > 0 && components(
                dirs[d],
            ) == components(sources[k]).drop_last(),
{
    let parents = choose|parents: Seq<Option<Seq<char>>>|
        #![trigger lists_dirs(parents, dirs)]
        are_parents(sources, parents) && lists_dirs(parents, dirs);
    assert(among(parents, dirs[d]));
    let k = choose|k: int|
        0 <= k < parents.len() && names_dir(#[trigger] parents[k]) && parents[k]->0 == dirs[d];
    assert(is_parent(sources[k], parents[k]));
    assert(in_slashes(sources[k]));
}

} // verus!
