//! A median-split hierarchy of boxes over the draws that take part in culling.
//!
//! The tree is laid out in pre-order: a node, its left subtree, its right subtree. A
//! subtree over `n` items has `2n - 1` nodes.

use crate::float_bits::{FloatBits, Vec3, infinity, neg_infinity, zero};
use crate::order::{Ranked, ascending, sorted};
use crate::render_types::{DrawObject, finite_box};
use vstd::prelude::*;

verus! {

/// A box.
#[derive(Debug, Clone, Copy)]
pub struct Aabb {
    pub min: Vec3,
    pub max: Vec3,
}

/// One item of a hierarchy: a box, an optional view-distance cutoff (zero is none) and
/// the index that a walk gives for it.
#[derive(Debug, Clone, Copy)]
pub struct BvhItem {
    pub bb_min: Vec3,
    pub bb_max: Vec3,
    pub cull_distance: FloatBits,
    pub index: u32,
}

/// An item with the centre of its box.
#[derive(Debug, Clone, Copy)]
pub struct CentredItem {
    pub bb_min: Vec3,
    pub bb_max: Vec3,
    pub centroid: Vec3,
    pub cull_distance: FloatBits,
    pub index: u32,
}

/// A node.
#[derive(Debug, Clone, Copy)]
pub enum Node {
    Internal { bb: Aabb, left: u32, right: u32 },
    Leaf { bb: Aabb, cull_distance: FloatBits, index: u32 },
}

/// A hierarchy.
#[derive(Debug)]
pub struct Bvh {
    pub nodes: Vec<Node>,
    pub root: Option<u32>,
}

/// The least corner of the boxes of the first `n` listed items along an axis.
pub open spec fn union_lo(items: Seq<CentredItem>, order: Seq<usize>, n: nat, axis: int) -> FloatBits
    decreases n,
{
    if n == 0 {
        infinity()
    } else {
        union_lo(items, order, (n - 1) as nat, axis).lesser(
            items[order[n - 1] as int].bb_min[axis],
        )
    }
}

/// The greatest corner of the boxes of the first `n` listed items along an axis.
pub open spec fn union_hi(items: Seq<CentredItem>, order: Seq<usize>, n: nat, axis: int) -> FloatBits
    decreases n,
{
    if n == 0 {
        neg_infinity()
    } else {
        union_hi(items, order, (n - 1) as nat, axis).greater(
            items[order[n - 1] as int].bb_max[axis],
        )
    }
}

/// A box is the union of the listed items' boxes.
pub open spec fn is_union(items: Seq<CentredItem>, order: Seq<usize>, bb: Aabb) -> bool {
    forall|a: int|
        0 <= a < 3 ==> #[trigger] bb.min[a] == union_lo(items, order, order.len(), a) && bb.max[a]
            == union_hi(items, order, order.len(), a)
}

/// The longest of three extents; the earlier axis where two are as long.
pub open spec fn longest(x: FloatBits, y: FloatBits, z: FloatBits) -> int {
    if y.at_most(x) && z.at_most(x) {
        0
    } else if z.at_most(y) {
        1
    } else {
        2
    }
}

/// An axis is the longest one of a box, whose extents `extent` measures.
pub open spec fn splits_along<E: Fn(FloatBits, FloatBits) -> FloatBits>(
    extent: E,
    bb: Aabb,
    axis: int,
) -> bool {
    exists|x: FloatBits, y: FloatBits, z: FloatBits|
        {
            &&& #[trigger] call_ensures(extent, (bb.max[0], bb.min[0]), x)
            &&& #[trigger] call_ensures(extent, (bb.max[1], bb.min[1]), y)
            &&& #[trigger] call_ensures(extent, (bb.max[2], bb.min[2]), z)
            &&& axis == longest(x, y, z)
        }
}

/// A place in a list and the rank it is sorted by.
#[derive(Debug, Clone, Copy, PartialEq, Eq, Structural)]
pub struct RankedPlace {
    pub rank: i64,
    pub place: usize,
}

impl Ranked for RankedPlace {
    open spec fn ranks(a: Self, b: Self) -> bool {
        a.rank < b.rank || (a.rank == b.rank && a.place <= b.place)
    }

    proof fn linear(a: Self, b: Self, c: Self) {
    }

    fn ranks_before(&self, other: &Self) -> (r: bool) {
        self.rank < other.rank || (self.rank == other.rank && self.place <= other.place)
    }
}

/// The rank of an item's centre along an axis.
pub open spec fn centre_rank(items: Seq<CentredItem>, item: usize, axis: int) -> int {
    items[item as int].centroid[axis].rank()
}

/// `places` lists the places of `before` in the order of a stable sort by centre.
pub open spec fn sorts(
    items: Seq<CentredItem>,
    axis: int,
    before: Seq<usize>,
    places: Seq<RankedPlace>,
) -> bool {
    &&& places.len() == before.len()
    &&& ascending(places)
    &&& forall|i: int|
        0 <= i < places.len() ==> (#[trigger] places[i]).place < before.len() && places[i].rank
            == centre_rank(items, before[places[i].place as int], axis)
    &&& forall|i: int, j: int|
        0 <= i < j < places.len() ==> (#[trigger] places[i]).place != (#[trigger] places[j]).place
}

/// `after` is `before`, sorted by centre along an axis; equals keep their order.
pub open spec fn is_stable_sort(
    items: Seq<CentredItem>,
    axis: int,
    before: Seq<usize>,
    after: Seq<usize>,
) -> bool {
    exists|places: Seq<RankedPlace>| #[trigger]
        sorts(items, axis, before, places) && after == Seq::new(
            before.len(),
            |i: int| before[places[i].place as int],
        )
}

/// The nodes from `at` on hold the subtree over the listed items: a leaf for one item,
/// and otherwise a node with the items split at their median along the longest axis.
pub open spec fn is_subtree<E: Fn(FloatBits, FloatBits) -> FloatBits>(
    nodes: Seq<Node>,
    at: int,
    items: Seq<CentredItem>,
    order: Seq<usize>,
    extent: E,
) -> bool
    decreases order.len(),
{
    if order.len() == 0 || at < 0 || at + 2 * order.len() - 1 > nodes.len() {
        false
    } else if order.len() == 1 {
        let item = items[order[0] as int];
        nodes[at] matches Node::Leaf { bb, cull_distance, index } && is_union(items, order, bb)
            && cull_distance == item.cull_distance && index == item.index
    } else {
        let mid = (order.len() / 2) as int;
        nodes[at] matches Node::Internal { bb, left, right } && is_union(items, order, bb) && left
            == at + 1 && right == at + 2 * mid && exists|axis: int, after: Seq<usize>|
            {
                &&& after.len() == order.len()
                &&& splits_along(extent, bb, axis)
                &&& #[trigger] is_stable_sort(items, axis, order, after)
                &&& is_subtree(nodes, at + 1, items, after.subrange(0, mid), extent)
                &&& is_subtree(
                    nodes,
                    at + 2 * mid,
                    items,
                    after.subrange(mid, after.len() as int),
                    extent,
                )
            }
    }
}

/// The places of all items, in order.
pub open spec fn all_places(n: nat) -> Seq<usize> {
    Seq::new(n, |i: int| i as usize)
}

/// Every listed place is one of an item.
pub open spec fn sortable(items: Seq<CentredItem>, order: Seq<usize>) -> bool {
    forall|i: int| 0 <= i < order.len() ==> (#[trigger] order[i]) < items.len()
}

/// A position is a number along every axis.
pub open spec fn is_point(c: Vec3) -> bool {
    !c[0].nan() && !c[1].nan() && !c[2].nan()
}

/// The centre of an item is a number along every axis.
pub open spec fn centred(item: CentredItem) -> bool {
    is_point(item.centroid)
}

/// An item with the centre that `centre` gives its box.
pub open spec fn is_centred<C: Fn(Vec3, Vec3) -> Vec3>(
    item: BvhItem,
    centre: C,
    placed: CentredItem,
) -> bool {
    &&& placed.bb_min == item.bb_min
    &&& placed.bb_max == item.bb_max
    &&& placed.cull_distance == item.cull_distance
    &&& placed.index == item.index
    &&& call_ensures(centre, (item.bb_min, item.bb_max), placed.centroid)
}

/// Items with the centres that `centre` gives their boxes.
pub open spec fn are_centred<C: Fn(Vec3, Vec3) -> Vec3>(
    items: Seq<BvhItem>,
    centre: C,
    placed: Seq<CentredItem>,
) -> bool {
    &&& placed.len() == items.len()
    &&& forall|i: int|
        0 <= i < items.len() ==> is_centred(items[i], centre, #[trigger] placed[i])
}

/// The hierarchy of a list of items with their centres: one leaf for each, and none
/// without items.
pub open spec fn is_tree_of<E: Fn(FloatBits, FloatBits) -> FloatBits>(
    bvh: Bvh,
    items: Seq<CentredItem>,
    extent: E,
) -> bool {
    if items.len() == 0 {
        bvh.root is None && bvh.nodes@.len() == 0
    } else {
        &&& bvh.root == Some(0u32)
        &&& bvh.nodes@.len() == 2 * items.len() - 1
        &&& is_subtree(bvh.nodes@, 0, items, all_places(items.len()), extent)
    }
}

/// The hierarchy of a list of items.
pub open spec fn is_tree<
    C: Fn(Vec3, Vec3) -> Vec3,
    E: Fn(FloatBits, FloatBits) -> FloatBits,
>(bvh: Bvh, items: Seq<BvhItem>, centre: C, extent: E) -> bool {
    exists|placed: Seq<CentredItem>| #[trigger]
        are_centred(items, centre, placed) && is_tree_of(bvh, placed, extent)
}

proof fn lemma_subtree_grows<E: Fn(FloatBits, FloatBits) -> FloatBits>(
    was: Seq<Node>,
    now: Seq<Node>,
    at: int,
    items: Seq<CentredItem>,
    order: Seq<usize>,
    extent: E,
)
    requires
        is_subtree(was, at, items, order, extent),
        now.len() >= was.len(),
        forall|i: int|
            at <= i < at + 2 * order.len() - 1 && i < was.len() ==> #[trigger] now[i] == was[i],
    ensures
        is_subtree(now, at, items, order, extent),
    decreases order.len(),
{
    if order.len() > 1 {
        let mid = (order.len() / 2) as int;
        let (axis, after): (int, Seq<usize>) = choose|axis: int, after: Seq<usize>|
            {
                &&& after.len() == order.len()
                &&& splits_along(extent, (was[at]->Internal_bb), axis)
                &&& #[trigger] is_stable_sort(items, axis, order, after)
                &&& is_subtree(was, at + 1, items, after.subrange(0, mid), extent)
                &&& is_subtree(
                    was,
                    at + 2 * mid,
                    items,
                    after.subrange(mid, after.len() as int),
                    extent,
                )
            };
        assert(now[at] == was[at]);
        lemma_subtree_grows(was, now, at + 1, items, after.subrange(0, mid), extent);
        lemma_subtree_grows(
            was,
            now,
            at + 2 * mid,
            items,
            after.subrange(mid, after.len() as int),
            extent,
        );
        assert(is_stable_sort(items, axis, order, after));
    } else {
        assert(now[at] == was[at]);
    }
}

fn axis_union(items: &Vec<CentredItem>, order: &Vec<usize>, axis: usize) -> (r: (FloatBits, FloatBits))
    requires
        axis < 3,
        sortable(items@, order@),
    ensures
        r.0 == union_lo(items@, order@, order@.len(), axis as int),
        r.1 == union_hi(items@, order@, order@.len(), axis as int),
{
    let mut lo: FloatBits = FloatBits::new(0x7f80_0000);
    let mut hi: FloatBits = FloatBits::new(0xff80_0000);
    let mut i: usize = 0;
    while i < order.len()
        invariant
            axis < 3,
            i <= order@.len(),
            sortable(items@, order@),
            lo == union_lo(items@, order@, i as nat, axis as int),
            hi == union_hi(items@, order@, i as nat, axis as int),
        decreases order@.len() - i,
    {
        assert(order@[i as int] < items@.len());
        let it: CentredItem = items[order[i]];
        lo = lo.min(it.bb_min[axis]);
        hi = hi.max(it.bb_max[axis]);
        i = i + 1;
    }
    (lo, hi)
}

fn union_box(items: &Vec<CentredItem>, order: &Vec<usize>) -> (r: Aabb)
    requires
        sortable(items@, order@),
    ensures
        is_union(items@, order@, r),
{
    let (x0, x1): (FloatBits, FloatBits) = axis_union(items, order, 0);
    let (y0, y1): (FloatBits, FloatBits) = axis_union(items, order, 1);
    let (z0, z1): (FloatBits, FloatBits) = axis_union(items, order, 2);
    Aabb { min: [x0, y0, z0], max: [x1, y1, z1] }
}

fn longest_axis<E: Fn(FloatBits, FloatBits) -> FloatBits>(extent: &E, bb: &Aabb) -> (r: usize)
    requires
        forall|hi: FloatBits, lo: FloatBits| call_requires(*extent, (hi, lo)),
    ensures
        r < 3,
        splits_along(*extent, *bb, r as int),
{
    let x: FloatBits = extent(bb.max[0], bb.min[0]);
    let y: FloatBits = extent(bb.max[1], bb.min[1]);
    let z: FloatBits = extent(bb.max[2], bb.min[2]);
    assert(call_ensures(*extent, (bb.max[0], bb.min[0]), x));
    assert(call_ensures(*extent, (bb.max[1], bb.min[1]), y));
    assert(call_ensures(*extent, (bb.max[2], bb.min[2]), z));
    if y.le(x) && z.le(x) {
        0
    } else if z.le(y) {
        1
    } else {
        2
    }
}

fn rank_of(f: FloatBits) -> (r: i64)
    ensures
        r == f.rank(),
{
    if f.bits >= 0x8000_0000 {
        -((f.bits - 0x8000_0000) as i64)
    } else {
        f.bits as i64
    }
}

/// Sort places by centre along an axis, stably.
fn sort_places(items: &Vec<CentredItem>, order: &Vec<usize>, axis: usize) -> (r: Vec<usize>)
    requires
        axis < 3,
        sortable(items@, order@),
    ensures
        r@.len() == order@.len(),
        sortable(items@, r@),
        is_stable_sort(items@, axis as int, order@, r@),
        r@.to_multiset() == order@.to_multiset(),
{
    let mut keys: Vec<RankedPlace> = Vec::new();
    let mut i: usize = 0;
    while i < order.len()
        invariant
            axis < 3,
            sortable(items@, order@),
            i <= order@.len(),
            keys@.len() == i,
            forall|j: int|
                0 <= j < i ==> (#[trigger] keys@[j]).place == j && keys@[j].rank == centre_rank(
                    items@,
                    order@[j],
                    axis as int,
                ),
        decreases order@.len() - i,
    {
        assert(order@[i as int] < items@.len());
        let it: CentredItem = items[order[i]];
        keys.push(RankedPlace { rank: rank_of(it.centroid[axis]), place: i });
        i = i + 1;
    }
    let places: Vec<RankedPlace> = sorted(&keys);
    let mut out: Vec<usize> = Vec::new();
    proof {
        lemma_places_sort(items@, axis as int, order@, keys@, places@);
    }
    let mut k: usize = 0;
    while k < places.len()
        invariant
            k <= places@.len(),
            sortable(items@, order@),
            sorts(items@, axis as int, order@, places@),
            out@.len() == k,
            forall|j: int| 0 <= j < k ==> #[trigger] out@[j] == order@[places@[j].place as int],
        decreases places@.len() - k,
    {
        assert(places@[k as int].place < order@.len());
        out.push(order[places[k].place]);
        k = k + 1;
    }
    proof {
        let after = Seq::new(order@.len(), |i: int| order@[places@[i].place as int]);
        assert(out@ =~= after);
        assert forall|j: int| 0 <= j < out@.len() implies (#[trigger] out@[j]) < items@.len() by {
            assert(out@[j] == order@[places@[j].place as int]);
            assert(places@[j].place < order@.len());
        }
        lemma_sort_keeps_multiset(items@, axis as int, order@, places@);
    }
    out
}

proof fn lemma_places_sort(
    items: Seq<CentredItem>,
    axis: int,
    order: Seq<usize>,
    keys: Seq<RankedPlace>,
    places: Seq<RankedPlace>,
)
    requires
        keys.len() == order.len(),
        order.len() <= usize::MAX,
        forall|j: int|
            0 <= j < keys.len() ==> (#[trigger] keys[j]).place == j && keys[j].rank == centre_rank(
                items,
                order[j],
                axis,
            ),
        ascending(places),
        places.len() == keys.len(),
        places.to_multiset() == keys.to_multiset(),
        forall|x: RankedPlace| #[trigger] places.contains(x) <==> keys.contains(x),
    ensures
        sorts(items, axis, order, places),
{
    broadcast use vstd::seq_lib::group_to_multiset_ensures;

    assert forall|i: int| 0 <= i < places.len() implies (#[trigger] places[i]).place < order.len()
        && places[i].rank == centre_rank(items, order[places[i].place as int], axis) by {
        assert(places.contains(places[i]));
        let j = choose|j: int| 0 <= j < keys.len() && keys[j] == places[i];
        assert(keys[j].place == j);
    }
    assert(keys.no_duplicates()) by {
        assert forall|i: int, j: int| 0 <= i < j < keys.len() implies keys[i] != keys[j] by {
            assert(keys[i].place == i && keys[j].place == j);
        }
    }
    keys.lemma_multiset_has_no_duplicates();
    assert forall|x: RankedPlace| places.to_multiset().contains(x) implies places.to_multiset().count(
        x,
    ) == 1 by {
        assert(keys.to_multiset().contains(x));
    }
    places.lemma_multiset_has_no_duplicates_conv();
    assert forall|i: int, j: int| 0 <= i < j < places.len() implies (#[trigger] places[i]).place != (
    #[trigger] places[j]).place by {
        assert(places[i] != places[j]);
        assert(places.contains(places[i]) && places.contains(places[j]));
        let a = choose|a: int| 0 <= a < keys.len() && keys[a] == places[i];
        let b = choose|b: int| 0 <= b < keys.len() && keys[b] == places[j];
        assert(keys[a].place == a && keys[b].place == b);
    }
}

/// A list whose entries are those of another at distinct places that cover it is a
/// rearrangement of it.
proof fn lemma_rearranged<T>(before: Seq<T>, places: Seq<int>)
    requires
        places.len() == before.len(),
        forall|i: int| 0 <= i < places.len() ==> 0 <= #[trigger] places[i] < before.len(),
        forall|i: int, j: int| 0 <= i < j < places.len() ==> places[i] != places[j],
    ensures
        Seq::new(before.len(), |i: int| before[places[i]]).to_multiset() == before.to_multiset(),
    decreases places.len(),
{
    broadcast use vstd::seq_lib::group_to_multiset_ensures;

    let after = Seq::new(before.len(), |i: int| before[places[i]]);
    if before.len() == 0 {
        assert(after =~= before);
    } else {
        let n = (before.len() - 1) as int;
        let p = places[n];
        // Drop place `p` from the first list and the last entry from the second.
        let rest = before.remove(p);
        let shifted = Seq::new(
            n as nat,
            |i: int|
                if places[i] < p {
                    places[i]
                } else {
                    places[i] - 1
                },
        );
        assert forall|i: int| 0 <= i < n implies 0 <= #[trigger] shifted[i] < rest.len() by {
            assert(places[i] != places[n]);
        }
        assert forall|i: int, j: int| 0 <= i < j < n implies shifted[i] != shifted[j] by {
            assert(places[i] != places[j]);
            assert(places[i] != places[n]);
            assert(places[j] != places[n]);
        }
        lemma_rearranged(rest, shifted);
        let head = after.drop_last();
        assert(head =~= Seq::new(rest.len(), |i: int| rest[shifted[i]])) by {
            assert forall|i: int| 0 <= i < n implies head[i] == rest[shifted[i]] by {
                assert(places[i] != places[n]);
            }
        }
        assert(after =~= head.push(before[p]));
        assert(after.to_multiset() =~= rest.to_multiset().insert(before[p]));
        assert(before =~= rest.insert(p, before[p]));
        before.to_multiset_ensures();
        assert(rest.to_multiset() =~= before.to_multiset().remove(before[p]));
        assert(before.to_multiset().contains(before[p]));
        assert(before.to_multiset() =~= rest.to_multiset().insert(before[p]));
    }
}

proof fn lemma_sort_keeps_multiset(
    items: Seq<CentredItem>,
    axis: int,
    before: Seq<usize>,
    places: Seq<RankedPlace>,
)
    requires
        sorts(items, axis, before, places),
    ensures
        Seq::new(before.len(), |i: int| before[places[i].place as int]).to_multiset()
            == before.to_multiset(),
{
    let at = Seq::new(places.len(), |i: int| places[i].place as int);
    assert forall|i: int| 0 <= i < at.len() implies 0 <= #[trigger] at[i] < before.len() by {
        assert(places[i].place < before.len());
    }
    assert forall|i: int, j: int| 0 <= i < j < at.len() implies at[i] != at[j] by {
        assert(places[i].place != places[j].place);
    }
    lemma_rearranged(before, at);
    assert(Seq::new(before.len(), |i: int| before[places[i].place as int]) =~= Seq::new(
        before.len(),
        |i: int| before[at[i]],
    ));
}

fn take(list: &Vec<usize>, from: usize, to: usize) -> (r: Vec<usize>)
    requires
        from <= to <= list@.len(),
    ensures
        r@ == list@.subrange(from as int, to as int),
{
    let mut out: Vec<usize> = Vec::new();
    let mut i: usize = from;
    while i < to
        invariant
            from <= i <= to <= list@.len(),
            out@ == list@.subrange(from as int, i as int),
        decreases to - i,
    {
        out.push(list[i]);
        i = i + 1;
        assert(out@ =~= list@.subrange(from as int, i as int));
    }
    out
}

/// Append the subtree over the listed items.
fn build_recursive<E: Fn(FloatBits, FloatBits) -> FloatBits>(
    nodes: &mut Vec<Node>,
    items: &Vec<CentredItem>,
    order: Vec<usize>,
    extent: &E,
) -> (r: u32)
    requires
        forall|hi: FloatBits, lo: FloatBits| call_requires(*extent, (hi, lo)),
        sortable(items@, order@),
        order@.len() > 0,
        old(nodes)@.len() + 2 * order@.len() <= u32::MAX,
    ensures
        r == old(nodes)@.len(),
        final(nodes)@.len() == old(nodes)@.len() + 2 * order@.len() - 1,
        forall|i: int| 0 <= i < old(nodes)@.len() ==> #[trigger] final(nodes)@[i] == old(nodes)@[i],
        is_subtree(final(nodes)@, old(nodes)@.len() as int, items@, order@, *extent),
    decreases order@.len(),
{
    let ghost start = nodes@;
    let at: u32 = nodes.len() as u32;
    let bb: Aabb = union_box(items, &order);
    if order.len() == 1 {
        assert(order@[0] < items@.len());
        let it: CentredItem = items[order[0]];
        nodes.push(Node::Leaf { bb, cull_distance: it.cull_distance, index: it.index });
        return at;
    }
    let axis: usize = longest_axis(extent, &bb);
    let after: Vec<usize> = sort_places(items, &order, axis);
    let mid: usize = order.len() / 2;
    nodes.push(Node::Internal { bb, left: u32::MAX, right: u32::MAX });
    let ghost pushed = nodes@;
    let left_items: Vec<usize> = take(&after, 0, mid);
    let right_items: Vec<usize> = take(&after, mid, after.len());
    proof {
        assert forall|i: int| 0 <= i < left_items@.len() implies (#[trigger] left_items@[i])
            < items@.len() by {
            assert(left_items@[i] == after@[i]);
        }
        assert forall|i: int| 0 <= i < right_items@.len() implies (#[trigger] right_items@[i])
            < items@.len() by {
            assert(right_items@[i] == after@[mid + i]);
        }
    }
    let left: u32 = build_recursive(nodes, items, left_items, extent);
    let ghost with_left = nodes@;
    let right: u32 = build_recursive(nodes, items, right_items, extent);
    let ghost with_both = nodes@;
    nodes.set(at as usize, Node::Internal { bb, left, right });
    proof {
        let n = start.len() as int;
        let now = nodes@;
        assert forall|i: int| 0 <= i < start.len() implies #[trigger] now[i] == start[i] by {
            assert(pushed[i] == start[i]);
            assert(with_left[i] == pushed[i]);
            assert(with_both[i] == with_left[i]);
        }
        assert forall|i: int| n + 1 <= i < n + 2 * mid implies #[trigger] now[i]
            == with_left[i] by {
            assert(with_both[i] == with_left[i]);
        }
        lemma_subtree_grows(with_left, now, n + 1, items@, left_items@, *extent);
        lemma_subtree_grows(with_both, now, n + 2 * mid, items@, right_items@, *extent);
        assert(is_stable_sort(items@, axis as int, order@, after@));
    }
    at
}

impl Bvh {
    /// Children stand behind their parent and in the list.
    pub open spec fn well_formed(&self) -> bool {
        &&& self.root matches Some(r) ==> r < self.nodes@.len()
        &&& ordered(self.nodes@)
    }

    /// Build the hierarchy. `centre` gives the centre of a box, by which several items
    /// are sorted and which must be a number there, and `extent` measures the extent
    /// between two coordinates.
    pub fn build<C: Fn(Vec3, Vec3) -> Vec3, E: Fn(FloatBits, FloatBits) -> FloatBits>(
        items: &Vec<BvhItem>,
        centre: &C,
        extent: &E,
    ) -> (r: Bvh)
        requires
            forall|lo: Vec3, hi: Vec3| call_requires(*centre, (lo, hi)),
            forall|hi: FloatBits, lo: FloatBits| call_requires(*extent, (hi, lo)),
            2 * items@.len() <= u32::MAX,
            items@.len() > 1 ==> forall|i: int, c: Vec3|
                0 <= i < items@.len() && #[trigger] call_ensures(
                    *centre,
                    (items@[i].bb_min, items@[i].bb_max),
                    c,
                ) ==> is_point(c),
        ensures
            r.well_formed(),
            is_tree(r, items@, *centre, *extent),
    {
        let mut placed: Vec<CentredItem> = Vec::new();
        let mut i: usize = 0;
        while i < items.len()
            invariant
                i <= items@.len(),
                forall|lo: Vec3, hi: Vec3| call_requires(*centre, (lo, hi)),
                items@.len() > 1 ==> forall|k: int, c: Vec3|
                    0 <= k < items@.len() && #[trigger] call_ensures(
                        *centre,
                        (items@[k].bb_min, items@[k].bb_max),
                        c,
                    ) ==> is_point(c),
                placed@.len() == i,
                forall|k: int|
                    0 <= k < i ==> is_centred(items@[k], *centre, #[trigger] placed@[k]) && (
                    items@.len() > 1 ==> centred(placed@[k])),
            decreases items@.len() - i,
        {
            let it: BvhItem = items[i];
            let centroid: Vec3 = centre(it.bb_min, it.bb_max);
            assert(call_ensures(
                *centre,
                (items@[i as int].bb_min, items@[i as int].bb_max),
                centroid,
            ));
            placed.push(
                CentredItem {
                    bb_min: it.bb_min,
                    bb_max: it.bb_max,
                    centroid,
                    cull_distance: it.cull_distance,
                    index: it.index,
                },
            );
            i = i + 1;
        }
        let r: Bvh = Bvh::build_centred(&placed, extent);
        assert(are_centred(items@, *centre, placed@));
        r
    }

    fn build_centred<E: Fn(FloatBits, FloatBits) -> FloatBits>(
        items: &Vec<CentredItem>,
        extent: &E,
    ) -> (r: Bvh)
        requires
            forall|hi: FloatBits, lo: FloatBits| call_requires(*extent, (hi, lo)),
            2 * items@.len() <= u32::MAX,
            items@.len() > 1 ==> forall|i: int|
                0 <= i < items@.len() ==> centred(#[trigger] items@[i]),
        ensures
            r.well_formed(),
            is_tree_of(r, items@, *extent),
    {
        let mut nodes: Vec<Node> = Vec::new();
        if items.len() == 0 {
            return Bvh { nodes, root: None };
        }
        let mut order: Vec<usize> = Vec::new();
        let mut i: usize = 0;
        while i < items.len()
            invariant
                i <= items@.len(),
                order@ == all_places(i as nat),
            decreases items@.len() - i,
        {
            order.push(i);
            i = i + 1;
            assert(order@ =~= all_places(i as nat));
        }
        let root: u32 = build_recursive(&mut nodes, items, order, extent);
        proof {
            lemma_subtree_ordered(nodes@, 0, items@, order@, *extent);
        }
        Bvh { nodes, root: Some(root) }
    }

    /// The indices of the leaves in view, walking from the root and leaving out what
    /// lies outside. `visible` tests a box against the view; `in_range` tests a box
    /// against a cutoff.
    pub fn query<V: Fn(Vec3, Vec3) -> bool, N: Fn(Vec3, Vec3, FloatBits) -> bool>(
        &self,
        visible: &V,
        in_range: &N,
    ) -> (r: Vec<u32>)
        requires
            self.well_formed(),
            forall|lo: Vec3, hi: Vec3| call_requires(*visible, (lo, hi)),
            forall|lo: Vec3, hi: Vec3, d: FloatBits| call_requires(*in_range, (lo, hi, d)),
        ensures
            query_gives(*self, *visible, *in_range, r@),
    {
        match self.root {
            None => Vec::new(),
            Some(root) => self.visit_from(root, visible, in_range),
        }
    }

    fn visit_from<V: Fn(Vec3, Vec3) -> bool, N: Fn(Vec3, Vec3, FloatBits) -> bool>(
        &self,
        at: u32,
        visible: &V,
        in_range: &N,
    ) -> (r: Vec<u32>)
        requires
            ordered(self.nodes@),
            at < self.nodes@.len(),
            forall|lo: Vec3, hi: Vec3| call_requires(*visible, (lo, hi)),
            forall|lo: Vec3, hi: Vec3, d: FloatBits| call_requires(*in_range, (lo, hi, d)),
        ensures
            visits(self.nodes@, at as int, *visible, *in_range, r@),
        decreases self.nodes@.len() - at,
    {
        let mut out: Vec<u32> = Vec::new();
        assert(behind(self.nodes@, at as int));
        match self.nodes[at as usize] {
            Node::Internal { bb, left, right } => {
                let seen: bool = visible(bb.min, bb.max);
                assert(call_ensures(*visible, (bb.min, bb.max), seen));
                if seen {
                    let l: Vec<u32> = self.visit_from(left, visible, in_range);
                    let r: Vec<u32> = self.visit_from(right, visible, in_range);
                    let ghost head = l@;
                    let ghost tail = r@;
                    out = l;
                    let mut i: usize = 0;
                    assert(out@ =~= head + tail.subrange(0, 0));
                    while i < r.len()
                        invariant
                            i <= r@.len(),
                            tail == r@,
                            out@ == head + tail.subrange(0, i as int),
                        decreases r@.len() - i,
                    {
                        out.push(r[i]);
                        i = i + 1;
                        assert(out@ =~= head + tail.subrange(0, i as int));
                    }
                    proof {
                        assert(tail.subrange(0, i as int) =~= tail);
                        assert(joined(head, tail, out@));
                    }
                }
            },
            Node::Leaf { bb, cull_distance, index } => {
                let seen: bool = visible(bb.min, bb.max);
                assert(call_ensures(*visible, (bb.min, bb.max), seen));
                if seen {
                    if FloatBits::new(0).lt(cull_distance) {
                        let near: bool = in_range(bb.min, bb.max, cull_distance);
                        assert(call_ensures(*in_range, (bb.min, bb.max, cull_distance), near));
                        if near {
                            out.push(index);
                        }
                    } else {
                        out.push(index);
                    }
                }
            },
        }
        out
    }
}

/// The children of a node stand behind it and in the list.
pub open spec fn behind(nodes: Seq<Node>, i: int) -> bool {
    nodes[i] matches Node::Internal { left, right, .. } ==> i < left < nodes.len() && i < right
        < nodes.len()
}

/// The children of every node stand behind it and in the list.
pub open spec fn ordered(nodes: Seq<Node>) -> bool {
    forall|i: int| 0 <= i < nodes.len() ==> #[trigger] behind(nodes, i)
}

proof fn lemma_subtree_ordered<E: Fn(FloatBits, FloatBits) -> FloatBits>(
    nodes: Seq<Node>,
    at: int,
    items: Seq<CentredItem>,
    order: Seq<usize>,
    extent: E,
)
    requires
        is_subtree(nodes, at, items, order, extent),
    ensures
        forall|i: int| at <= i < at + 2 * order.len() - 1 ==> #[trigger] behind(nodes, i),
    decreases order.len(),
{
    if order.len() > 1 {
        let mid = (order.len() / 2) as int;
        let (axis, after): (int, Seq<usize>) = choose|axis: int, after: Seq<usize>|
            {
                &&& after.len() == order.len()
                &&& splits_along(extent, (nodes[at]->Internal_bb), axis)
                &&& #[trigger] is_stable_sort(items, axis, order, after)
                &&& is_subtree(nodes, at + 1, items, after.subrange(0, mid), extent)
                &&& is_subtree(
                    nodes,
                    at + 2 * mid,
                    items,
                    after.subrange(mid, after.len() as int),
                    extent,
                )
            };
        lemma_subtree_ordered(nodes, at + 1, items, after.subrange(0, mid), extent);
        lemma_subtree_ordered(
            nodes,
            at + 2 * mid,
            items,
            after.subrange(mid, after.len() as int),
            extent,
        );
    }
}

/// A list is two others, one after the other.
pub open spec fn joined(l: Seq<u32>, r: Seq<u32>, out: Seq<u32>) -> bool {
    out == l + r
}

/// Whether a list can be the answer of a query: nothing of an empty tree, and what a
/// walk from the root gathers otherwise.
pub open spec fn query_gives<V: Fn(Vec3, Vec3) -> bool, N: Fn(Vec3, Vec3, FloatBits) -> bool>(
    bvh: Bvh,
    visible: V,
    in_range: N,
    out: Seq<u32>,
) -> bool {
    match bvh.root {
        None => out.len() == 0,
        Some(root) => visits(bvh.nodes@, root as int, visible, in_range, out),
    }
}

/// A walk from a node visits the leaves of `out`, in order: nothing where its box is
/// not visible; a leaf where it is also in range, a cutoff of zero being always in
/// range; and for any other node what its left and then its right subtree visit.
pub open spec fn visits<V: Fn(Vec3, Vec3) -> bool, N: Fn(Vec3, Vec3, FloatBits) -> bool>(
    nodes: Seq<Node>,
    at: int,
    visible: V,
    in_range: N,
    out: Seq<u32>,
) -> bool
    decreases nodes.len() - at,
{
    if at < 0 || at >= nodes.len() || !behind(nodes, at) {
        false
    } else {
        match nodes[at] {
            Node::Leaf { bb, cull_distance, index } => exists|seen: bool|
                {
                    &&& #[trigger] call_ensures(visible, (bb.min, bb.max), seen)
                    &&& if !seen {
                        out == Seq::<u32>::empty()
                    } else if zero().less(cull_distance) {
                        exists|near: bool|
                            {
                                &&& #[trigger] call_ensures(
                                    in_range,
                                    (bb.min, bb.max, cull_distance),
                                    near,
                                )
                                &&& out == if near {
                                    seq![index]
                                } else {
                                    Seq::empty()
                                }
                            }
                    } else {
                        out == seq![index]
                    }
                },
            Node::Internal { bb, left, right } => exists|seen: bool|
                {
                    &&& #[trigger] call_ensures(visible, (bb.min, bb.max), seen)
                    &&& if !seen {
                        out == Seq::<u32>::empty()
                    } else {
                        exists|l: Seq<u32>, r: Seq<u32>|
                            {
                                &&& #[trigger] joined(l, r, out)
                                &&& visits(nodes, left as int, visible, in_range, l)
                                &&& visits(nodes, right as int, visible, in_range, r)
                            }
                    }
                },
        }
    }
}

/// How a subtree over more than one item splits.
spec fn splits<E: Fn(FloatBits, FloatBits) -> FloatBits>(
    nodes: Seq<Node>,
    at: int,
    items: Seq<CentredItem>,
    order: Seq<usize>,
    extent: E,
    axis: int,
    after: Seq<usize>,
) -> bool {
    let mid = (order.len() / 2) as int;
    &&& after.len() == order.len()
    &&& is_stable_sort(items, axis, order, after)
    &&& is_subtree(nodes, at + 1, items, after.subrange(0, mid), extent)
    &&& is_subtree(nodes, at + 2 * mid, items, after.subrange(mid, after.len() as int), extent)
}

proof fn lemma_splits<E: Fn(FloatBits, FloatBits) -> FloatBits>(
    nodes: Seq<Node>,
    at: int,
    items: Seq<CentredItem>,
    order: Seq<usize>,
    extent: E,
) -> (r: (int, Seq<usize>))
    requires
        is_subtree(nodes, at, items, order, extent),
        order.len() > 1,
    ensures
        splits(nodes, at, items, order, extent, r.0, r.1),
{
    let mid = (order.len() / 2) as int;
    choose|axis: int, after: Seq<usize>|
        {
            &&& after.len() == order.len()
            &&& splits_along(extent, (nodes[at]->Internal_bb), axis)
            &&& #[trigger] is_stable_sort(items, axis, order, after)
            &&& is_subtree(nodes, at + 1, items, after.subrange(0, mid), extent)
            &&& is_subtree(
                nodes,
                at + 2 * mid,
                items,
                after.subrange(mid, after.len() as int),
                extent,
            )
        }
}

/// The indices of the leaves of the subtree from `at` on over `n` items, from left to
/// right.
pub open spec fn leaf_indices(nodes: Seq<Node>, at: int, n: nat) -> Seq<u32>
    decreases n,
{
    if n == 0 {
        Seq::empty()
    } else if n == 1 {
        seq![nodes[at]->Leaf_index]
    } else {
        leaf_indices(nodes, at + 1, (n / 2) as nat) + leaf_indices(
            nodes,
            at + 2 * (n / 2),
            (n - n / 2) as nat,
        )
    }
}

/// The indices of the listed items.
pub open spec fn item_indices(items: Seq<CentredItem>, order: Seq<usize>) -> Seq<u32> {
    Seq::new(order.len(), |i: int| items[order[i] as int].index)
}

/// Every item is one leaf of its hierarchy, and there are no other leaves.
pub proof fn law_leaves_are_the_items<E: Fn(FloatBits, FloatBits) -> FloatBits>(
    nodes: Seq<Node>,
    at: int,
    items: Seq<CentredItem>,
    order: Seq<usize>,
    extent: E,
)
    requires
        is_subtree(nodes, at, items, order, extent),
    ensures
        leaf_indices(nodes, at, order.len()).to_multiset() == item_indices(
            items,
            order,
        ).to_multiset(),
    decreases order.len(),
{
    if order.len() == 1 {
        assert(leaf_indices(nodes, at, 1) =~= item_indices(items, order));
    } else {
        let mid = (order.len() / 2) as int;
        let (axis, after) = lemma_splits(nodes, at, items, order, extent);
        let l = after.subrange(0, mid);
        let r = after.subrange(mid, after.len() as int);
        law_leaves_are_the_items(nodes, at + 1, items, l, extent);
        law_leaves_are_the_items(nodes, at + 2 * mid, items, r, extent);
        let li = item_indices(items, l);
        let ri = item_indices(items, r);
        let ai = item_indices(items, after);
        assert(ai =~= li + ri);
        vstd::seq_lib::lemma_multiset_commutative(li, ri);
        vstd::seq_lib::lemma_multiset_commutative(
            leaf_indices(nodes, at + 1, mid as nat),
            leaf_indices(nodes, at + 2 * mid, (order.len() - mid) as nat),
        );
        let places = choose|places: Seq<RankedPlace>| #[trigger]
            sorts(items, axis, order, places) && after == Seq::new(
                order.len(),
                |i: int| order[places[i].place as int],
            );
        let oi = item_indices(items, order);
        let picked_at = Seq::new(places.len(), |i: int| places[i].place as int);
        assert forall|i: int| 0 <= i < picked_at.len() implies 0 <= #[trigger] picked_at[i]
            < oi.len() by {
            assert(places[i].place < order.len());
        }
        assert forall|i: int, j: int| 0 <= i < j < picked_at.len() implies picked_at[i] != picked_at[j] by {
            assert(places[i].place != places[j].place);
        }
        lemma_rearranged(oi, picked_at);
        assert(ai =~= Seq::new(oi.len(), |i: int| oi[picked_at[i]])) by {
            assert forall|i: int| 0 <= i < ai.len() implies ai[i] == oi[picked_at[i]] by {
                assert(places[i].place < order.len());
            }
        }
    }
}

proof fn lemma_stable_sort_contains(
    items: Seq<CentredItem>,
    axis: int,
    before: Seq<usize>,
    after: Seq<usize>,
    e: usize,
)
    requires
        is_stable_sort(items, axis, before, after),
    ensures
        after.contains(e) <==> before.contains(e),
{
    let places = choose|places: Seq<RankedPlace>| #[trigger]
        sorts(items, axis, before, places) && after == Seq::new(
            before.len(),
            |i: int| before[places[i].place as int],
        );
    lemma_sort_keeps_multiset(items, axis, before, places);
    before.to_multiset_ensures();
    after.to_multiset_ensures();
    assert(before.contains(e) <==> before.to_multiset().contains(e));
    assert(after.contains(e) <==> after.to_multiset().contains(e));
}

/// No test rejects a box that bounds item `e`: the view test accepts every box that is
/// a union of boxes with that of `e`, and the range test accepts its own box.
pub open spec fn never_rejected<
    V: Fn(Vec3, Vec3) -> bool,
    N: Fn(Vec3, Vec3, FloatBits) -> bool,
>(items: Seq<CentredItem>, visible: V, in_range: N, e: usize) -> bool {
    &&& forall|order: Seq<usize>, bb: Aabb, seen: bool|
        #[trigger] is_union(items, order, bb) && order.contains(e) && #[trigger] call_ensures(
            visible,
            (bb.min, bb.max),
            seen,
        ) ==> seen
    &&& forall|bb: Aabb, near: bool|
        is_union(items, seq![e], bb) && #[trigger] call_ensures(
            in_range,
            (bb.min, bb.max, items[e as int].cull_distance),
            near,
        ) ==> near
}

/// A walk finds every item that the tests accept, whatever lies around it: culling by
/// whole subtrees loses nothing.
pub proof fn law_query_finds_what_is_visible<
    E: Fn(FloatBits, FloatBits) -> FloatBits,
    V: Fn(Vec3, Vec3) -> bool,
    N: Fn(Vec3, Vec3, FloatBits) -> bool,
>(
    nodes: Seq<Node>,
    at: int,
    items: Seq<CentredItem>,
    order: Seq<usize>,
    extent: E,
    visible: V,
    in_range: N,
    out: Seq<u32>,
    e: usize,
)
    requires
        is_subtree(nodes, at, items, order, extent),
        visits(nodes, at, visible, in_range, out),
        order.contains(e),
        never_rejected(items, visible, in_range, e),
    ensures
        out.contains(items[e as int].index),
    decreases order.len(),
{
    if order.len() == 1 {
        assert(order[0] == e);
        assert(order =~= seq![e]);
        match nodes[at] {
            Node::Leaf { bb, cull_distance, index } => {
                let seen = choose|seen: bool|
                    {
                        &&& #[trigger] call_ensures(visible, (bb.min, bb.max), seen)
                        &&& if !seen {
                            out == Seq::<u32>::empty()
                        } else if zero().less(cull_distance) {
                            exists|near: bool|
                                {
                                    &&& #[trigger] call_ensures(
                                        in_range,
                                        (bb.min, bb.max, cull_distance),
                                        near,
                                    )
                                    &&& out == if near {
                                        seq![index]
                                    } else {
                                        Seq::empty()
                                    }
                                }
                        } else {
                            out == seq![index]
                        }
                    };
                assert(is_union(items, order, bb) && order.contains(e));
                assert(seen);
                assert(out == seq![index]);
                assert(out[0] == index);
            },
            _ => {},
        }
    } else {
        let mid = (order.len() / 2) as int;
        let (axis, after) = lemma_splits(nodes, at, items, order, extent);
        lemma_stable_sort_contains(items, axis, order, after, e);
        match nodes[at] {
            Node::Internal { bb, left, right } => {
                let seen = choose|seen: bool|
                    {
                        &&& #[trigger] call_ensures(visible, (bb.min, bb.max), seen)
                        &&& if !seen {
                            out == Seq::<u32>::empty()
                        } else {
                            exists|l: Seq<u32>, r: Seq<u32>|
                                {
                                    &&& #[trigger] joined(l, r, out)
                                    &&& visits(nodes, left as int, visible, in_range, l)
                                    &&& visits(nodes, right as int, visible, in_range, r)
                                }
                        }
                    };
                assert(is_union(items, order, bb) && order.contains(e));
                assert(seen);
                let (l, r): (Seq<u32>, Seq<u32>) = choose|l: Seq<u32>, r: Seq<u32>|
                    {
                        &&& #[trigger] joined(l, r, out)
                        &&& visits(nodes, left as int, visible, in_range, l)
                        &&& visits(nodes, right as int, visible, in_range, r)
                    };
                let k = choose|k: int| 0 <= k < after.len() && after[k] == e;
                let lo = after.subrange(0, mid);
                let ro = after.subrange(mid, after.len() as int);
                if k < mid {
                    assert(lo[k] == e);
                    law_query_finds_what_is_visible(
                        nodes,
                        at + 1,
                        items,
                        lo,
                        extent,
                        visible,
                        in_range,
                        l,
                        e,
                    );
                    let x = choose|x: int| 0 <= x < l.len() && l[x] == items[e as int].index;
                    assert(out[x] == items[e as int].index);
                } else {
                    assert(ro[k - mid] == e);
                    law_query_finds_what_is_visible(
                        nodes,
                        at + 2 * mid,
                        items,
                        ro,
                        extent,
                        visible,
                        in_range,
                        r,
                        e,
                    );
                    let x = choose|x: int| 0 <= x < r.len() && r[x] == items[e as int].index;
                    assert(out[l.len() + x] == items[e as int].index);
                }
            },
            _ => {},
        }
    }
}

/// Item `e` was accepted: its box by the view test and, where it has a cutoff, by the
/// range test.
pub open spec fn accepted<V: Fn(Vec3, Vec3) -> bool, N: Fn(Vec3, Vec3, FloatBits) -> bool>(
    items: Seq<CentredItem>,
    visible: V,
    in_range: N,
    e: usize,
    bb: Aabb,
) -> bool {
    &&& is_union(items, seq![e], bb)
    &&& call_ensures(visible, (bb.min, bb.max), true)
    &&& zero().less(items[e as int].cull_distance) ==> call_ensures(
        in_range,
        (bb.min, bb.max, items[e as int].cull_distance),
        true,
    )
}

/// A walk gives nothing but items that the tests accepted.
pub proof fn law_query_gives_only_accepted<
    E: Fn(FloatBits, FloatBits) -> FloatBits,
    V: Fn(Vec3, Vec3) -> bool,
    N: Fn(Vec3, Vec3, FloatBits) -> bool,
>(
    nodes: Seq<Node>,
    at: int,
    items: Seq<CentredItem>,
    order: Seq<usize>,
    extent: E,
    visible: V,
    in_range: N,
    out: Seq<u32>,
    x: int,
) -> (r: (usize, Aabb))
    requires
        is_subtree(nodes, at, items, order, extent),
        visits(nodes, at, visible, in_range, out),
        0 <= x < out.len(),
    ensures
        order.contains(r.0),
        items[r.0 as int].index == out[x],
        accepted(items, visible, in_range, r.0, r.1),
    decreases order.len(),
{
    if order.len() == 1 {
        let e = order[0];
        assert(order =~= seq![e]);
        (e, nodes[at]->Leaf_bb)
    } else {
        let mid = (order.len() / 2) as int;
        let (axis, after) = lemma_splits(nodes, at, items, order, extent);
        let left = nodes[at]->left as int;
        let right = nodes[at]->right as int;
        let (l, r): (Seq<u32>, Seq<u32>) = choose|l: Seq<u32>, r: Seq<u32>|
            {
                &&& #[trigger] joined(l, r, out)
                &&& visits(nodes, left, visible, in_range, l)
                &&& visits(nodes, right, visible, in_range, r)
            };
        let lo = after.subrange(0, mid);
        let ro = after.subrange(mid, after.len() as int);
        let (e, bb) = if x < l.len() {
            law_query_gives_only_accepted(
                nodes,
                at + 1,
                items,
                lo,
                extent,
                visible,
                in_range,
                l,
                x,
            )
        } else {
            law_query_gives_only_accepted(
                nodes,
                at + 2 * mid,
                items,
                ro,
                extent,
                visible,
                in_range,
                r,
                x - l.len(),
            )
        };
        assert(after.contains(e)) by {
            if x < l.len() {
                let k = choose|k: int| 0 <= k < lo.len() && lo[k] == e;
                assert(after[k] == e);
            } else {
                let k = choose|k: int| 0 <= k < ro.len() && ro[k] == e;
                assert(after[mid + k] == e);
            }
        }
        lemma_stable_sort_contains(items, axis, order, after, e);
        (e, bb)
    }
}

/// A box lies within another.
pub open spec fn box_within(lo: Vec3, hi: Vec3, outer_lo: Vec3, outer_hi: Vec3) -> bool {
    forall|a: int|
        0 <= a < 3 ==> #[trigger] outer_lo[a].at_most(lo[a]) && hi[a].at_most(outer_hi[a])
}

/// A view test that answers by the box alone, and that sees every box around one that
/// it sees.
pub open spec fn sees_by<V: Fn(Vec3, Vec3) -> bool>(
    visible: V,
    sees: spec_fn(Vec3, Vec3) -> bool,
) -> bool {
    &&& forall|lo: Vec3, hi: Vec3, seen: bool| #[trigger]
        call_ensures(visible, (lo, hi), seen) ==> seen == sees(lo, hi)
    &&& forall|lo: Vec3, hi: Vec3, outer_lo: Vec3, outer_hi: Vec3|
        #![trigger box_within(lo, hi, outer_lo, outer_hi)]
        box_within(lo, hi, outer_lo, outer_hi) && sees(lo, hi) ==> sees(outer_lo, outer_hi)
}

/// A range test that answers by the box and the cutoff alone.
pub open spec fn ranges_by<N: Fn(Vec3, Vec3, FloatBits) -> bool>(
    in_range: N,
    near: spec_fn(Vec3, Vec3, FloatBits) -> bool,
) -> bool {
    forall|lo: Vec3, hi: Vec3, d: FloatBits, b: bool| #[trigger]
        call_ensures(in_range, (lo, hi, d), b) ==> b == near(lo, hi, d)
}

/// An item passes the tests: its box is seen and within its cutoff, if it has one.
pub open spec fn passes(
    item: BvhItem,
    sees: spec_fn(Vec3, Vec3) -> bool,
    near: spec_fn(Vec3, Vec3, FloatBits) -> bool,
) -> bool {
    sees(item.bb_min, item.bb_max) && (zero().less(item.cull_distance) ==> near(
        item.bb_min,
        item.bb_max,
        item.cull_distance,
    ))
}

/// The indices of the items among the first `k` that pass, one after the other.
pub open spec fn scan(
    items: Seq<BvhItem>,
    sees: spec_fn(Vec3, Vec3) -> bool,
    near: spec_fn(Vec3, Vec3, FloatBits) -> bool,
    k: nat,
) -> Seq<u32>
    decreases k,
{
    if k == 0 {
        Seq::empty()
    } else {
        let before = scan(items, sees, near, (k - 1) as nat);
        if passes(items[k - 1], sees, near) {
            before.push(items[k - 1].index)
        } else {
            before
        }
    }
}

/// An item without its centre.
spec fn plain(item: CentredItem) -> BvhItem {
    BvhItem {
        bb_min: item.bb_min,
        bb_max: item.bb_max,
        cull_distance: item.cull_distance,
        index: item.index,
    }
}

/// For each listed item its index where it passes, and nothing where it does not.
spec fn marks(
    items: Seq<CentredItem>,
    order: Seq<usize>,
    sees: spec_fn(Vec3, Vec3) -> bool,
    near: spec_fn(Vec3, Vec3, FloatBits) -> bool,
) -> Seq<Option<u32>> {
    Seq::new(
        order.len(),
        |i: int|
            {
                let item = plain(items[order[i] as int]);
                if passes(item, sees, near) {
                    Some(item.index)
                } else {
                    None
                }
            },
    )
}

/// The corners of the listed items' boxes are numbers.
spec fn boxed(items: Seq<CentredItem>, order: Seq<usize>) -> bool {
    forall|i: int|
        0 <= i < order.len() ==> is_point((#[trigger] items[order[i] as int]).bb_min) && is_point(
            items[order[i] as int].bb_max,
        )
}

proof fn lemma_union_bounds(items: Seq<CentredItem>, order: Seq<usize>, n: nat, axis: int)
    requires
        n <= order.len(),
        0 <= axis < 3,
        boxed(items, order),
    ensures
        !union_lo(items, order, n, axis).nan(),
        !union_hi(items, order, n, axis).nan(),
        forall|i: int|
            0 <= i < n ==> union_lo(items, order, n, axis).at_most(
                (#[trigger] items[order[i] as int]).bb_min[axis],
            ) && items[order[i] as int].bb_max[axis].at_most(union_hi(items, order, n, axis)),
        n == 1 ==> union_lo(items, order, n, axis) == items[order[0] as int].bb_min[axis]
            && union_hi(items, order, n, axis) == items[order[0] as int].bb_max[axis],
    decreases n,
{
    if n > 0 {
        lemma_union_bounds(items, order, (n - 1) as nat, axis);
        let last = items[order[n - 1] as int];
        assert(is_point(last.bb_min) && is_point(last.bb_max));
        assert(axis == 0 || axis == 1 || axis == 2);
        if n == 1 {
            assert(union_lo(items, order, 0, axis) == infinity());
            assert(union_hi(items, order, 0, axis) == neg_infinity());
        }
    }
}

proof fn lemma_item_within(items: Seq<CentredItem>, order: Seq<usize>, bb: Aabb, i: int)
    requires
        boxed(items, order),
        is_union(items, order, bb),
        0 <= i < order.len(),
    ensures
        box_within(
            items[order[i] as int].bb_min,
            items[order[i] as int].bb_max,
            bb.min,
            bb.max,
        ),
        order.len() == 1 ==> bb.min == items[order[0] as int].bb_min && bb.max
            == items[order[0] as int].bb_max,
{
    let item = items[order[i] as int];
    assert forall|a: int| 0 <= a < 3 implies #[trigger] bb.min[a].at_most(item.bb_min[a])
        && item.bb_max[a].at_most(bb.max[a]) by {
        lemma_union_bounds(items, order, order.len(), a);
        assert(bb.min[a] == union_lo(items, order, order.len(), a));
    }
    if order.len() == 1 {
        assert forall|a: int| 0 <= a < 3 implies bb.min[a] == item.bb_min[a] && bb.max[a]
            == item.bb_max[a] by {
            lemma_union_bounds(items, order, 1, a);
            assert(bb.min[a] == union_lo(items, order, order.len(), a));
        }
        assert(bb.min =~= item.bb_min);
        assert(bb.max =~= item.bb_max);
    }
}

proof fn lemma_subtree_scan<
    E: Fn(FloatBits, FloatBits) -> FloatBits,
    V: Fn(Vec3, Vec3) -> bool,
    N: Fn(Vec3, Vec3, FloatBits) -> bool,
>(
    nodes: Seq<Node>,
    at: int,
    items: Seq<CentredItem>,
    order: Seq<usize>,
    extent: E,
    visible: V,
    in_range: N,
    sees: spec_fn(Vec3, Vec3) -> bool,
    near: spec_fn(Vec3, Vec3, FloatBits) -> bool,
    out: Seq<u32>,
)
    requires
        is_subtree(nodes, at, items, order, extent),
        visits(nodes, at, visible, in_range, out),
        boxed(items, order),
        sees_by(visible, sees),
        ranges_by(in_range, near),
    ensures
        forall|v: u32|
            #![trigger out.to_multiset().count(v)]
            out.to_multiset().count(v) == marks(items, order, sees, near).to_multiset().count(
                Some(v),
            ),
    decreases order.len(),
{
    broadcast use vstd::seq_lib::group_to_multiset_ensures;

    let all = marks(items, order, sees, near);
    if order.len() == 1 {
        match nodes[at] {
            Node::Leaf { bb, cull_distance, index } => {
                lemma_item_within(items, order, bb, 0);
                let item = plain(items[order[0] as int]);
                if passes(item, sees, near) {
                    assert(out =~= Seq::<u32>::empty().push(index));
                    assert(all =~= Seq::<Option<u32>>::empty().push(Some(index)));
                } else {
                    assert(out =~= Seq::<u32>::empty());
                    assert(all =~= Seq::<Option<u32>>::empty().push(None));
                }
            },
            _ => {},
        }
    } else {
        match nodes[at] {
            Node::Internal { bb, left, right } => {
                let seen = choose|seen: bool|
                    {
                        &&& #[trigger] call_ensures(visible, (bb.min, bb.max), seen)
                        &&& if !seen {
                            out == Seq::<u32>::empty()
                        } else {
                            exists|l: Seq<u32>, r: Seq<u32>|
                                {
                                    &&& #[trigger] joined(l, r, out)
                                    &&& visits(nodes, left as int, visible, in_range, l)
                                    &&& visits(nodes, right as int, visible, in_range, r)
                                }
                        }
                    };
                if !seen {
                    assert forall|v: u32| all.to_multiset().count(Some(v)) == 0 by {
                        if all.contains(Some(v)) {
                            let i = choose|i: int| 0 <= i < all.len() && all[i] == Some(v);
                            lemma_item_within(items, order, bb, i);
                        }
                        all.to_multiset_ensures();
                        assert(all.contains(Some(v)) <==> all.to_multiset().count(Some(v)) > 0);
                    }
                } else {
                    let mid = (order.len() / 2) as int;
                    let (axis, after) = lemma_splits(nodes, at, items, order, extent);
                    let lo = after.subrange(0, mid);
                    let ro = after.subrange(mid, after.len() as int);
                    let (l, r): (Seq<u32>, Seq<u32>) = choose|l: Seq<u32>, r: Seq<u32>|
                        {
                            &&& #[trigger] joined(l, r, out)
                            &&& visits(nodes, left as int, visible, in_range, l)
                            &&& visits(nodes, right as int, visible, in_range, r)
                        };
                    let places = choose|places: Seq<RankedPlace>| #[trigger]
                        sorts(items, axis, order, places) && after == Seq::new(
                            order.len(),
                            |i: int| order[places[i].place as int],
                        );
                    let picked_at = Seq::new(places.len(), |i: int| places[i].place as int);
                    assert forall|i: int| 0 <= i < picked_at.len() implies 0
                        <= #[trigger] picked_at[i] < all.len() by {
                        assert(places[i].place < order.len());
                    }
                    assert forall|i: int, j: int| 0 <= i < j < picked_at.len() implies picked_at[i]
                        != picked_at[j] by {
                        assert(places[i].place != places[j].place);
                    }
                    lemma_rearranged(all, picked_at);
                    let sorted_marks = marks(items, after, sees, near);
                    assert(sorted_marks =~= Seq::new(all.len(), |i: int| all[picked_at[i]])) by {
                        assert forall|i: int| 0 <= i < sorted_marks.len() implies sorted_marks[i]
                            == all[picked_at[i]] by {
                            assert(places[i].place < order.len());
                        }
                    }
                    assert(boxed(items, after)) by {
                        assert forall|i: int| 0 <= i < after.len() implies is_point(
                            (#[trigger] items[after[i] as int]).bb_min,
                        ) && is_point(items[after[i] as int].bb_max) by {
                            assert(places[i].place < order.len());
                            assert(after[i] == order[places[i].place as int]);
                        }
                    }
                    assert(boxed(items, lo)) by {
                        assert forall|i: int| 0 <= i < lo.len() implies is_point(
                            (#[trigger] items[lo[i] as int]).bb_min,
                        ) && is_point(items[lo[i] as int].bb_max) by {
                            assert(lo[i] == after[i]);
                        }
                    }
                    assert(boxed(items, ro)) by {
                        assert forall|i: int| 0 <= i < ro.len() implies is_point(
                            (#[trigger] items[ro[i] as int]).bb_min,
                        ) && is_point(items[ro[i] as int].bb_max) by {
                            assert(ro[i] == after[mid + i]);
                        }
                    }
                    lemma_subtree_scan(
                        nodes,
                        at + 1,
                        items,
                        lo,
                        extent,
                        visible,
                        in_range,
                        sees,
                        near,
                        l,
                    );
                    lemma_subtree_scan(
                        nodes,
                        at + 2 * mid,
                        items,
                        ro,
                        extent,
                        visible,
                        in_range,
                        sees,
                        near,
                        r,
                    );
                    let lm = marks(items, lo, sees, near);
                    let rm = marks(items, ro, sees, near);
                    assert(sorted_marks =~= lm + rm);
                    vstd::seq_lib::lemma_multiset_commutative(lm, rm);
                    vstd::seq_lib::lemma_multiset_commutative(l, r);
                    assert forall|v: u32|
                        #![trigger out.to_multiset().count(v)]
                        out.to_multiset().count(v) == all.to_multiset().count(Some(v)) by {
                        assert(l.to_multiset().count(v) == lm.to_multiset().count(Some(v)));
                        assert(r.to_multiset().count(v) == rm.to_multiset().count(Some(v)));
                    }
                }
            },
            _ => {},
        }
    }
}

proof fn lemma_marks_scan(
    items: Seq<BvhItem>,
    placed: Seq<CentredItem>,
    sees: spec_fn(Vec3, Vec3) -> bool,
    near: spec_fn(Vec3, Vec3, FloatBits) -> bool,
    k: nat,
    v: u32,
)
    requires
        k <= items.len() <= usize::MAX,
        placed.len() == items.len(),
        forall|i: int| 0 <= i < items.len() ==> plain(#[trigger] placed[i]) == items[i],
    ensures
        marks(placed, all_places(k), sees, near).to_multiset().count(Some(v)) == scan(
            items,
            sees,
            near,
            k,
        ).to_multiset().count(v),
    decreases k,
{
    broadcast use vstd::seq_lib::group_to_multiset_ensures;

    let now = marks(placed, all_places(k), sees, near);
    if k == 0 {
        assert(now =~= Seq::<Option<u32>>::empty());
    } else {
        lemma_marks_scan(items, placed, sees, near, (k - 1) as nat, v);
        let before = marks(placed, all_places((k - 1) as nat), sees, near);
        let last = items[k - 1];
        assert(plain(placed[k - 1]) == last);
        let mark: Option<u32> = if passes(last, sees, near) {
            Some(last.index)
        } else {
            None
        };
        assert(now =~= before.push(mark));
    }
}

/// A walk of a hierarchy gives what a scan of its items would: each item that passes
/// the tests once, and no other. `sees` and `near` are what the two tests decide, and
/// the view test sees every box around one that it sees.
pub proof fn law_query_is_a_scan<
    C: Fn(Vec3, Vec3) -> Vec3,
    E: Fn(FloatBits, FloatBits) -> FloatBits,
    V: Fn(Vec3, Vec3) -> bool,
    N: Fn(Vec3, Vec3, FloatBits) -> bool,
>(
    bvh: Bvh,
    items: Seq<BvhItem>,
    centre: C,
    extent: E,
    visible: V,
    in_range: N,
    sees: spec_fn(Vec3, Vec3) -> bool,
    near: spec_fn(Vec3, Vec3, FloatBits) -> bool,
    out: Seq<u32>,
)
    requires
        items.len() <= usize::MAX,
        is_tree(bvh, items, centre, extent),
        query_gives(bvh, visible, in_range, out),
        forall|i: int|
            0 <= i < items.len() ==> is_point((#[trigger] items[i]).bb_min) && is_point(
                items[i].bb_max,
            ),
        sees_by(visible, sees),
        ranges_by(in_range, near),
    ensures
        out.to_multiset() == scan(items, sees, near, items.len()).to_multiset(),
        items.len() == 0 ==> out.len() == 0,
{
    let placed = choose|placed: Seq<CentredItem>| #[trigger]
        are_centred(items, centre, placed) && is_tree_of(bvh, placed, extent);
    let n = items.len();
    let found = scan(items, sees, near, n);
    if n == 0 {
        assert(out =~= found);
    } else {
        let order = all_places(n);
        assert(boxed(placed, order)) by {
            assert forall|i: int| 0 <= i < order.len() implies is_point(
                (#[trigger] placed[order[i] as int]).bb_min,
            ) && is_point(placed[order[i] as int].bb_max) by {
                assert(is_centred(items[i], centre, placed[i]));
            }
        }
        lemma_subtree_scan(
            bvh.nodes@,
            0,
            placed,
            order,
            extent,
            visible,
            in_range,
            sees,
            near,
            out,
        );
        assert forall|v: u32| out.to_multiset().count(v) == found.to_multiset().count(v) by {
            assert forall|i: int| 0 <= i < items.len() implies plain(#[trigger] placed[i])
                == items[i] by {
                assert(is_centred(items[i], centre, placed[i]));
            }
            lemma_marks_scan(items, placed, sees, near, n, v);
        }
        assert(out.to_multiset() =~= found.to_multiset());
    }
}

/// The draws among the first `k` that take part in culling, or that do not.
pub open spec fn culled(draws: Seq<DrawObject>, cullable: bool, k: nat) -> Seq<int>
    decreases k,
{
    if k == 0 {
        Seq::empty()
    } else {
        let before = culled(draws, cullable, (k - 1) as nat);
        if finite_box(draws[k - 1].bb_min, draws[k - 1].bb_max) == cullable {
            before.push(k - 1)
        } else {
            before
        }
    }
}

/// The item of a draw.
pub open spec fn item_of(draws: Seq<DrawObject>, d: int) -> BvhItem {
    BvhItem {
        bb_min: draws[d].bb_min,
        bb_max: draws[d].bb_max,
        cull_distance: draws[d].cull_distance,
        index: d as u32,
    }
}

/// The items of the draws that take part in culling, among the first `k`.
pub open spec fn items_of(draws: Seq<DrawObject>, k: nat) -> Seq<BvhItem> {
    culled(draws, true, k).map_values(|d: int| item_of(draws, d))
}

/// The draws among the first `k` that do not take part in culling.
pub open spec fn always_drawn(draws: Seq<DrawObject>, k: nat) -> Seq<u32> {
    culled(draws, false, k).map_values(|d: int| d as u32)
}

/// Split the draws into the items of a hierarchy and the draws that are always drawn.
pub fn cull_items(draws: &Vec<DrawObject>) -> (r: (Vec<BvhItem>, Vec<u32>))
    requires
        draws@.len() <= u32::MAX,
    ensures
        r.0@ == items_of(draws@, draws@.len()),
        r.1@ == always_drawn(draws@, draws@.len()),
        r.0@.len() + r.1@.len() == draws@.len(),
{
    let mut items: Vec<BvhItem> = Vec::new();
    let mut always: Vec<u32> = Vec::new();
    let mut k: usize = 0;
    assert(items@ =~= items_of(draws@, 0));
    assert(always@ =~= always_drawn(draws@, 0));
    while k < draws.len()
        invariant
            k <= draws@.len() <= u32::MAX,
            items@ == items_of(draws@, k as nat),
            always@ == always_drawn(draws@, k as nat),
            items@.len() + always@.len() == k,
        decreases draws@.len() - k,
    {
        let obj: &DrawObject = &draws[k];
        if obj.cullable() {
            items.push(
                BvhItem {
                    bb_min: obj.bb_min,
                    bb_max: obj.bb_max,
                    cull_distance: obj.cull_distance,
                    index: k as u32,
                },
            );
        } else {
            always.push(k as u32);
        }
        k = k + 1;
        assert(items@ =~= items_of(draws@, k as nat));
        assert(always@ =~= always_drawn(draws@, k as nat));
    }
    (items, always)
}

/// Split the draws and build the hierarchy over those that take part in culling.
/// `centre` gives the centre of a finite box, which must be a number.
pub fn partition_draw_objects<
    C: Fn(Vec3, Vec3) -> Vec3,
    E: Fn(FloatBits, FloatBits) -> FloatBits,
>(draws: &Vec<DrawObject>, centre: &C, extent: &E) -> (r: (Bvh, Vec<u32>))
    requires
        2 * draws@.len() <= u32::MAX,
        forall|lo: Vec3, hi: Vec3| call_requires(*centre, (lo, hi)),
        forall|lo: Vec3, hi: Vec3, c: Vec3|
            finite_box(lo, hi) && #[trigger] call_ensures(*centre, (lo, hi), c) ==> is_point(c),
        forall|hi: FloatBits, lo: FloatBits| call_requires(*extent, (hi, lo)),
    ensures
        r.0.well_formed(),
        is_tree(r.0, items_of(draws@, draws@.len()), *centre, *extent),
        r.1@ == always_drawn(draws@, draws@.len()),
{
    let (items, always): (Vec<BvhItem>, Vec<u32>) = cull_items(draws);
    proof {
        assert forall|i: int, c: Vec3|
            0 <= i < items@.len() && #[trigger] call_ensures(
                *centre,
                (items@[i].bb_min, items@[i].bb_max),
                c,
            ) implies is_point(c) by {
            lemma_culled(draws@, true, draws@.len(), i);
        }
    }
    let bvh: Bvh = Bvh::build(&items, centre, extent);
    (bvh, always)
}

proof fn lemma_culled(draws: Seq<DrawObject>, cullable: bool, k: nat, i: int)
    requires
        k <= draws.len(),
        0 <= i < culled(draws, cullable, k).len(),
    ensures
        0 <= culled(draws, cullable, k)[i] < k,
        finite_box(
            draws[culled(draws, cullable, k)[i]].bb_min,
            draws[culled(draws, cullable, k)[i]].bb_max,
        ) == cullable,
    decreases k,
{
    if k > 0 {
        let before = culled(draws, cullable, (k - 1) as nat);
        if i < before.len() {
            lemma_culled(draws, cullable, (k - 1) as nat, i);
        }
    }
}

/// The axis of a split is the longest one, and the earliest where several are as long.
pub proof fn law_longest_axis_is_longest(x: FloatBits, y: FloatBits, z: FloatBits)
    requires
        !x.nan() && !y.nan() && !z.nan(),
    ensures
        longest(x, y, z) == 0 <==> y.at_most(x) && z.at_most(x),
        longest(x, y, z) == 1 <==> x.less(y) && z.at_most(y),
        longest(x, y, z) == 2 <==> x.less(z) && y.less(z),
{
}

/// A sort by centre loses and adds no item, puts the lesser centre first, and keeps the order
/// of items whose centres are the same.
pub proof fn law_sort_puts_lesser_centres_first(
    items: Seq<CentredItem>,
    axis: int,
    before: Seq<usize>,
    after: Seq<usize>,
    i: int,
    j: int,
)
    requires
        is_stable_sort(items, axis, before, after),
        0 <= i < j < after.len(),
    ensures
        after.len() == before.len(),
        items[after[i] as int].centroid[axis].rank() <= items[after[j] as int].centroid[axis].rank(),
        before.contains(after[i]),
        items[after[i] as int].centroid[axis].rank() == items[after[j] as int].centroid[axis].rank()
            ==> exists|p: int, q: int|
            0 <= p < q < before.len() && #[trigger] before[p] == after[i] && #[trigger] before[q]
                == after[j],
{
    let places = choose|places: Seq<RankedPlace>| #[trigger]
        sorts(items, axis, before, places) && after == Seq::new(
            before.len(),
            |i: int| before[places[i].place as int],
        );
    assert(RankedPlace::ranks(places[i], places[j]));
    assert(places[i].place != places[j].place);
    let p = places[i].place as int;
    let q = places[j].place as int;
    assert(places[i].place < before.len() && places[j].place < before.len());
    assert(before[p] == after[i] && before[q] == after[j]);
}

/// A subtree over several items is a node right before its two subtrees: the left one over the
/// first half, the smaller where they differ, and the right one over the rest.
pub proof fn law_subtree_halves_its_items<E: Fn(FloatBits, FloatBits) -> FloatBits>(
    nodes: Seq<Node>,
    at: int,
    items: Seq<CentredItem>,
    order: Seq<usize>,
    extent: E,
)
    requires
        is_subtree(nodes, at, items, order, extent),
    ensures
        order.len() == 1 ==> nodes[at] is Leaf && nodes[at]->index
            == items[order[0] as int].index && nodes[at]->cull_distance
            == items[order[0] as int].cull_distance,
        order.len() > 1 ==> nodes[at] is Internal && nodes[at]->left == at + 1 && nodes[at]->right
            == at + 2 * (order.len() / 2) && exists|l: Seq<usize>, r: Seq<usize>|
            {
                &&& #[trigger] is_subtree(nodes, at + 1, items, l, extent)
                &&& #[trigger] is_subtree(nodes, at + 2 * (order.len() / 2), items, r, extent)
                &&& l.len() == order.len() / 2
                &&& l.len() + r.len() == order.len()
            },
{
    if order.len() > 1 {
        let mid = (order.len() / 2) as int;
        let bb = nodes[at]->Internal_bb;
        let (axis, after) = choose|axis: int, after: Seq<usize>|
            {
                &&& after.len() == order.len()
                &&& splits_along(extent, bb, axis)
                &&& #[trigger] is_stable_sort(items, axis, order, after)
                &&& is_subtree(nodes, at + 1, items, after.subrange(0, mid), extent)
                &&& is_subtree(
                    nodes,
                    at + 2 * mid,
                    items,
                    after.subrange(mid, after.len() as int),
                    extent,
                )
            };
        let l = after.subrange(0, mid);
        let r = after.subrange(mid, after.len() as int);
        assert(is_subtree(nodes, at + 1, items, l, extent));
        assert(is_subtree(nodes, at + 2 * mid, items, r, extent));
    }
}

/// A draw is either an item of the hierarchy or always drawn: an item exactly where its box is
/// finite, with that box, its own cutoff and its own index.
pub proof fn law_draws_are_culled_where_finite(draws: Seq<DrawObject>, k: nat, d: int)
    requires
        0 <= d < k <= draws.len() <= u32::MAX,
    ensures
        finite_box(draws[d].bb_min, draws[d].bb_max) <==> exists|i: int|
            0 <= i < items_of(draws, k).len() && (#[trigger] items_of(draws, k)[i]).index == d
                && items_of(draws, k)[i].bb_min == draws[d].bb_min && items_of(draws, k)[i].bb_max
                == draws[d].bb_max && items_of(draws, k)[i].cull_distance == draws[d].cull_distance,
        !finite_box(draws[d].bb_min, draws[d].bb_max) <==> always_drawn(draws, k).contains(
            d as u32,
        ),
{
    let inside = culled(draws, true, k);
    let outside = culled(draws, false, k);
    lemma_culled_has(draws, true, k, d);
    lemma_culled_has(draws, false, k, d);
    if inside.contains(d) {
        let i = choose|i: int| 0 <= i < inside.len() && inside[i] == d;
        assert(items_of(draws, k)[i].index == d);
    }
    if exists|i: int|
        0 <= i < items_of(draws, k).len() && (#[trigger] items_of(draws, k)[i]).index == d {
        let i = choose|i: int|
            0 <= i < items_of(draws, k).len() && (#[trigger] items_of(draws, k)[i]).index == d;
        lemma_culled(draws, true, k, i);
        assert(inside[i] == d);
    }
    if outside.contains(d) {
        let i = choose|i: int| 0 <= i < outside.len() && outside[i] == d;
        assert(always_drawn(draws, k)[i] == d as u32);
    }
    if always_drawn(draws, k).contains(d as u32) {
        let i = choose|i: int|
            0 <= i < always_drawn(draws, k).len() && always_drawn(draws, k)[i] == d as u32;
        lemma_culled(draws, false, k, i);
        assert(outside[i] == d);
    }
}

proof fn lemma_culled_has(draws: Seq<DrawObject>, cullable: bool, k: nat, d: int)
    requires
        0 <= d < k <= draws.len(),
    ensures
        culled(draws, cullable, k).contains(d) <==> finite_box(draws[d].bb_min, draws[d].bb_max)
            == cullable,
    decreases k,
{
    let now = culled(draws, cullable, k);
    let before = culled(draws, cullable, (k - 1) as nat);
    if d < k - 1 {
        lemma_culled_has(draws, cullable, (k - 1) as nat, d);
        if before.contains(d) {
            let i = choose|i: int| 0 <= i < before.len() && before[i] == d;
            assert(now[i] == d);
        }
        if now.contains(d) {
            let i = choose|i: int| 0 <= i < now.len() && now[i] == d;
            assert(before[i] == d);
        }
    } else if finite_box(draws[d].bb_min, draws[d].bb_max) == cullable {
        assert(now[now.len() - 1] == d);
    } else if now.contains(d) {
        let i = choose|i: int| 0 <= i < now.len() && now[i] == d;
        lemma_culled(draws, cullable, (k - 1) as nat, i);
    }
}

} // verus!
