//! Laying labels out: the containers that manage labels place them by their measured
//! sizes, anew for each frame.

use crate::float_bits::FloatBits;
use crate::tables::AssetId;
use std::collections::HashMap;
use vstd::prelude::*;

verus! {

/// Where a label stands.
#[derive(Debug, Clone, Copy, PartialEq, Eq, Structural)]
pub struct LabelPlace {
    pub asset_id: AssetId,
    pub x: FloatBits,
    pub y: FloatBits,
}

/// The measured size of a label.
#[derive(Debug, Clone, Copy, PartialEq, Eq, Structural)]
pub struct LabelBox {
    pub width: FloatBits,
    pub height: FloatBits,
}

/// A container of labels, with its layout rules as a value of any type.
#[derive(Debug)]
pub struct LayoutContainer<C> {
    pub visible: bool,
    pub rules: C,
}

/// The measured boxes by label id: of several labels with one id the last that could
/// be measured.
pub open spec fn boxes(labels: Seq<LabelPlace>, ms: Seq<Option<LabelBox>>, k: nat) -> Map<
    u32,
    LabelBox,
>
    decreases k,
{
    if k == 0 {
        Map::empty()
    } else {
        let before = boxes(labels, ms, (k - 1) as nat);
        match ms[k - 1] {
            Some(b) => before.insert(labels[k - 1].asset_id, b),
            None => before,
        }
    }
}

/// Whether a list holds a measurement of each of `n` labels.
pub open spec fn are_measures<M: Fn(usize) -> Option<LabelBox>>(
    measure: M,
    n: nat,
    ms: Seq<Option<LabelBox>>,
) -> bool {
    &&& ms.len() == n
    &&& forall|i: int| 0 <= i < n ==> call_ensures(measure, (i as usize,), #[trigger] ms[i])
}

/// The first label with an id.
pub open spec fn is_first_label(labels: Seq<LabelPlace>, id: u32, at: int) -> bool {
    &&& 0 <= at < labels.len()
    &&& labels[at].asset_id == id
    &&& forall|j: int| 0 <= j < at ==> (#[trigger] labels[j]).asset_id != id
}

/// The labels after one placement: the first label with its id is moved.
pub open spec fn is_moved(was: Seq<LabelPlace>, p: LabelPlace, now: Seq<LabelPlace>) -> bool {
    &&& now.len() == was.len()
    &&& forall|j: int|
        0 <= j < was.len() ==> #[trigger] now[j] == if is_first_label(was, p.asset_id, j) {
            p
        } else {
            was[j]
        }
}

/// The labels after the first `k` placements, by the states between them.
pub open spec fn are_moved(
    states: Seq<Seq<LabelPlace>>,
    was: Seq<LabelPlace>,
    placements: Seq<LabelPlace>,
    k: int,
) -> bool {
    &&& states.len() == k + 1
    &&& states[0] == was
    &&& forall|i: int|
        0 <= i < k ==> is_moved(states[i], placements[i], #[trigger] states[i + 1])
}

/// The places among the first `k` containers of those that are visible.
pub open spec fn shown<C>(containers: Seq<LayoutContainer<C>>, k: nat) -> Seq<int>
    decreases k,
{
    if k == 0 {
        Seq::empty()
    } else if containers[k - 1].visible {
        shown(containers, (k - 1) as nat).push(k - 1)
    } else {
        shown(containers, (k - 1) as nat)
    }
}

/// Whether placements are those of the visible containers among the first `k`, one list
/// after the other.
pub open spec fn are_placements<
    C,
    L: Fn(&C, &HashMap<u32, LabelBox>) -> Vec<LabelPlace>,
>(
    layout: L,
    containers: Seq<LayoutContainer<C>>,
    sizes: HashMap<u32, LabelBox>,
    k: nat,
    lists: Seq<Vec<LabelPlace>>,
    placements: Seq<LabelPlace>,
) -> bool {
    let at = shown(containers, k);
    &&& lists.len() == at.len()
    &&& forall|i: int|
        0 <= i < at.len() ==> call_ensures(
            layout,
            (&containers[at[i]].rules, &sizes),
            #[trigger] lists[i],
        )
    &&& placements == joined(lists, lists.len())
}

/// The lists one after the other.
pub open spec fn joined(lists: Seq<Vec<LabelPlace>>, n: nat) -> Seq<LabelPlace>
    decreases n,
{
    if n == 0 {
        Seq::empty()
    } else {
        joined(lists, (n - 1) as nat) + lists[n - 1]@
    }
}

proof fn lemma_joined_push(lists: Seq<Vec<LabelPlace>>, l: Vec<LabelPlace>, n: nat)
    requires
        n <= lists.len(),
    ensures
        joined(lists.push(l), n) == joined(lists, n),
    decreases n,
{
    if n > 0 {
        lemma_joined_push(lists, l, (n - 1) as nat);
        assert(lists.push(l)[n - 1] == lists[n - 1]);
    }
}

/// Everything that a layout comes to: the sizes, the visible containers' placements
/// and the moves.
pub open spec fn is_layout<
    C,
    M: Fn(usize) -> Option<LabelBox>,
    L: Fn(&C, &HashMap<u32, LabelBox>) -> Vec<LabelPlace>,
>(
    measure: M,
    layout: L,
    containers: Seq<LayoutContainer<C>>,
    was: Seq<LabelPlace>,
    now: Seq<LabelPlace>,
    ms: Seq<Option<LabelBox>>,
    sizes: HashMap<u32, LabelBox>,
    lists: Seq<Vec<LabelPlace>>,
    states: Seq<Seq<LabelPlace>>,
) -> bool {
    let placements = joined(lists, lists.len());
    &&& are_measures(measure, was.len(), ms)
    &&& sizes@ == boxes(was, ms, was.len())
    &&& are_placements(layout, containers, sizes, containers.len(), lists, placements)
    &&& are_moved(states, was, placements, placements.len() as int)
    &&& now == states.last()
}

/// Move the first label with a placement's id to it.
fn place(labels: &mut Vec<LabelPlace>, p: LabelPlace)
    ensures
        is_moved(old(labels)@, p, final(labels)@),
{
    let mut i: usize = 0;
    while i < labels.len()
        invariant
            i <= labels@.len(),
            labels@ == old(labels)@,
            forall|j: int| 0 <= j < i ==> (#[trigger] labels@[j]).asset_id != p.asset_id,
        decreases labels@.len() - i,
    {
        if labels[i].asset_id == p.asset_id {
            labels.set(i, p);
            return;
        }
        i = i + 1;
    }
}

/// Lay the labels out. `measure` gives the size of the label at a place, where it can
/// be measured; `layout` places a container's labels by the sizes of all of them.
/// Without a visible container every label stays.
pub fn apply_label_layout<
    C,
    M: Fn(usize) -> Option<LabelBox>,
    L: Fn(&C, &HashMap<u32, LabelBox>) -> Vec<LabelPlace>,
>(
    containers: &Vec<LayoutContainer<C>>,
    labels: &mut Vec<LabelPlace>,
    measure: &M,
    layout: &L,
)
    requires
        forall|i: usize| call_requires(*measure, (i,)),
        forall|c: C, s: HashMap<u32, LabelBox>| #[trigger] call_requires(*layout, (&c, &s)),
    ensures
        if shown(containers@, containers@.len()).len() == 0 {
            final(labels)@ == old(labels)@
        } else {
            exists|
                ms: Seq<Option<LabelBox>>,
                sizes: HashMap<u32, LabelBox>,
                lists: Seq<Vec<LabelPlace>>,
                states: Seq<Seq<LabelPlace>>,
            | #[trigger]
                is_layout(
                    *measure,
                    *layout,
                    containers@,
                    old(labels)@,
                    final(labels)@,
                    ms,
                    sizes,
                    lists,
                    states,
                )
        },
{
    broadcast use vstd::std_specs::hash::group_hash_axioms;

    let ghost was = labels@;
    if !any_visible(containers) {
        return;
    }
    let ghost mut ms: Seq<Option<LabelBox>> = Seq::empty();
    let mut sizes: HashMap<u32, LabelBox> = HashMap::new();
    let mut i: usize = 0;
    while i < labels.len()
        invariant
            i <= labels@.len(),
            labels@ == was,
            forall|k: usize| call_requires(*measure, (k,)),
            are_measures(*measure, i as nat, ms),
            sizes@ == boxes(was, ms, i as nat),
        decreases labels@.len() - i,
    {
        broadcast use vstd::std_specs::hash::group_hash_axioms;

        let m: Option<LabelBox> = measure(i);
        let ghost before = ms;
        proof {
            ms = ms.push(m);
            lemma_boxes_extend(was, before, m, i as nat);
        }
        match m {
            Some(b) => {
                sizes.insert(labels[i].asset_id, b);
            },
            None => {},
        }
        i = i + 1;
    }
    let ghost mut lists: Seq<Vec<LabelPlace>> = Seq::empty();
    let mut placements: Vec<LabelPlace> = Vec::new();
    let mut k: usize = 0;
    while k < containers.len()
        invariant
            k <= containers@.len(),
            forall|c: C, s: HashMap<u32, LabelBox>| #[trigger] call_requires(*layout, (&c, &s)),
            are_placements(*layout, containers@, sizes, k as nat, lists, placements@),
        decreases containers@.len() - k,
    {
        if containers[k].visible {
            let list: Vec<LabelPlace> = layout(&containers[k].rules, &sizes);
            let ghost before = lists;
            let ghost placed = placements@;
            proof {
                lists = lists.push(list);
                lemma_joined_push(before, list, before.len());
            }
            append(&mut placements, &list);
            proof {
                let at = shown(containers@, (k + 1) as nat);
                assert forall|j: int| 0 <= j < at.len() implies call_ensures(
                    *layout,
                    (&containers@[at[j]].rules, &sizes),
                    #[trigger] lists[j],
                ) by {
                    if j < before.len() {
                        assert(lists[j] == before[j]);
                    }
                }
                assert(placements@ =~= joined(lists, lists.len()));
            }
        }
        k = k + 1;
    }
    let ghost mut states: Seq<Seq<LabelPlace>> = seq![was];
    let mut p: usize = 0;
    while p < placements.len()
        invariant
            p <= placements@.len(),
            are_moved(states, was, placements@, p as int),
            labels@ == states.last(),
        decreases placements@.len() - p,
    {
        let ghost before = states;
        place(labels, placements[p]);
        proof {
            states = states.push(labels@);
            assert forall|j: int| 0 <= j < p + 1 implies is_moved(
                states[j],
                placements@[j],
                #[trigger] states[j + 1],
            ) by {
                if j < p {
                    assert(states[j] == before[j] && states[j + 1] == before[j + 1]);
                } else {
                    assert(states[j] == before.last());
                }
            }
        }
        p = p + 1;
    }
    assert(is_layout(
        *measure,
        *layout,
        containers@,
        was,
        labels@,
        ms,
        sizes,
        lists,
        states,
    ));
}

proof fn lemma_boxes_extend(
    labels: Seq<LabelPlace>,
    ms: Seq<Option<LabelBox>>,
    m: Option<LabelBox>,
    k: nat,
)
    requires
        k <= ms.len(),
    ensures
        boxes(labels, ms.push(m), k) == boxes(labels, ms, k),
    decreases k,
{
    if k > 0 {
        lemma_boxes_extend(labels, ms, m, (k - 1) as nat);
        assert(ms.push(m)[k - 1] == ms[k - 1]);
    }
}

fn append(all: &mut Vec<LabelPlace>, list: &Vec<LabelPlace>)
    ensures
        final(all)@ == old(all)@ + list@,
{
    let ghost was = all@;
    let mut i: usize = 0;
    while i < list.len()
        invariant
            i <= list@.len(),
            all@ == was + list@.subrange(0, i as int),
        decreases list@.len() - i,
    {
        all.push(list[i]);
        i = i + 1;
        assert(all@ =~= was + list@.subrange(0, i as int));
    }
    assert(list@.subrange(0, i as int) =~= list@);
}

fn any_visible<C>(containers: &Vec<LayoutContainer<C>>) -> (r: bool)
    ensures
        r == (shown(containers@, containers@.len()).len() > 0),
{
    let mut found: bool = false;
    let mut i: usize = 0;
    while i < containers.len()
        invariant
            i <= containers@.len(),
            found == (shown(containers@, i as nat).len() > 0),
        decreases containers@.len() - i,
    {
        if containers[i].visible {
            found = true;
        }
        i = i + 1;
    }
    found
}

/// A layout only moves labels: their number, their order and their ids stay.
pub proof fn law_layout_keeps_labels(
    states: Seq<Seq<LabelPlace>>,
    was: Seq<LabelPlace>,
    placements: Seq<LabelPlace>,
    k: int,
    j: int,
)
    requires
        0 <= k,
        are_moved(states, was, placements, k),
        0 <= j < was.len(),
    ensures
        states[k].len() == was.len(),
        states[k][j].asset_id == was[j].asset_id,
    decreases k,
{
    if k > 0 {
        let shorter = states.drop_last();
        assert forall|i: int| 0 <= i < k - 1 implies is_moved(
            shorter[i],
            placements[i],
            #[trigger] shorter[i + 1],
        ) by {
            assert(shorter[i + 1] == states[i + 1]);
        }
        law_layout_keeps_labels(shorter, was, placements, k - 1, j);
        assert(is_moved(states[k - 1], placements[k - 1], states[k - 1 + 1]));
        assert(states[k][j] == if is_first_label(
            states[k - 1],
            placements[k - 1].asset_id,
            j,
        ) {
            placements[k - 1]
        } else {
            states[k - 1][j]
        });
    }
}

/// A container takes part in the layout exactly where it is visible, and the containers take
/// part in order.
pub proof fn law_visible_containers_lay_out<C>(
    containers: Seq<LayoutContainer<C>>,
    k: nat,
    i: int,
    a: int,
    b: int,
)
    requires
        k <= containers.len(),
    ensures
        shown(containers, k).contains(i) <==> 0 <= i < k && containers[i].visible,
        0 <= a < b < shown(containers, k).len() ==> shown(containers, k)[a] < shown(
            containers,
            k,
        )[b],
        forall|x: int|
            0 <= x < shown(containers, k).len() ==> 0 <= #[trigger] shown(containers, k)[x] < k,
    decreases k,
{
    if k > 0 {
        law_visible_containers_lay_out(containers, (k - 1) as nat, i, a, b);
        let before = shown(containers, (k - 1) as nat);
        let now = shown(containers, k);
        assert forall|x: int| 0 <= x < now.len() implies 0 <= #[trigger] now[x] < k by {
            if x < before.len() {
                assert(now[x] == before[x]);
            }
        }
        if before.contains(i) {
            let c = choose|c: int| 0 <= c < before.len() && before[c] == i;
            assert(now[c] == i);
        }
        if now.len() > before.len() && i == k - 1 {
            assert(now[now.len() - 1] == i);
        }
        if now.contains(i) && !before.contains(i) {
            let c = choose|c: int| 0 <= c < now.len() && now[c] == i;
            assert(c == before.len());
        }
    }
}

/// The box of an id is that of the last label with it that could be measured, and an id
/// whose labels could not be measured has none.
pub proof fn law_box_is_the_last_measured(
    labels: Seq<LabelPlace>,
    ms: Seq<Option<LabelBox>>,
    k: nat,
    id: u32,
    i: int,
)
    requires
        k <= labels.len(),
        k <= ms.len(),
    ensures
        0 <= i < k && labels[i].asset_id == id && ms[i] is Some && (forall|j: int|
            i < j < k && (#[trigger] labels[j]).asset_id == id ==> ms[j] is None) ==> boxes(
            labels,
            ms,
            k,
        ).dom().contains(id) && Some(boxes(labels, ms, k)[id]) == ms[i],
        (forall|j: int| 0 <= j < k && (#[trigger] labels[j]).asset_id == id ==> ms[j] is None)
            ==> !boxes(labels, ms, k).dom().contains(id),
    decreases k,
{
    if k > 0 {
        law_box_is_the_last_measured(labels, ms, (k - 1) as nat, id, i);
        if i < k - 1 && (forall|j: int|
            i < j < k && (#[trigger] labels[j]).asset_id == id ==> ms[j] is None) {
            assert(labels[k - 1].asset_id == id ==> ms[k - 1] is None);
        }
        if forall|j: int| 0 <= j < k && (#[trigger] labels[j]).asset_id == id ==> ms[j] is None {
            assert(labels[k - 1].asset_id == id ==> ms[k - 1] is None);
        }
    }
}

/// A label stands where the last placement for its id puts it, as long as it is the first
/// label with that id, and where it stood without one; a later label with the id stays.
pub proof fn law_label_stands_where_it_was_placed(
    states: Seq<Seq<LabelPlace>>,
    was: Seq<LabelPlace>,
    placements: Seq<LabelPlace>,
    k: int,
    j: int,
    p: int,
)
    requires
        0 <= k <= placements.len(),
        are_moved(states, was, placements, k),
        0 <= j < was.len(),
    ensures
        is_first_label(was, was[j].asset_id, j) && 0 <= p < k && placements[p].asset_id
            == was[j].asset_id && (forall|q: int|
            p < q < k ==> (#[trigger] placements[q]).asset_id != was[j].asset_id) ==> states[k][j]
            == placements[p],
        !is_first_label(was, was[j].asset_id, j) ==> states[k][j] == was[j],
        (forall|q: int| 0 <= q < k ==> (#[trigger] placements[q]).asset_id != was[j].asset_id)
            ==> states[k][j] == was[j],
    decreases k,
{
    if k > 0 {
        let shorter = states.drop_last();
        assert forall|i: int| 0 <= i < k - 1 implies is_moved(
            shorter[i],
            placements[i],
            #[trigger] shorter[i + 1],
        ) by {
            assert(shorter[i + 1] == states[i + 1]);
        }
        law_label_stands_where_it_was_placed(shorter, was, placements, k - 1, j, p);
        let before = states[k - 1];
        assert(shorter[k - 1] == before);
        assert(is_moved(before, placements[k - 1], states[k - 1 + 1]));
        assert forall|i: int| 0 <= i < was.len() implies (#[trigger] before[i]).asset_id
            == was[i].asset_id && before.len() == was.len() by {
            law_layout_keeps_labels(shorter, was, placements, k - 1, i);
        }
        assert(before.len() == was.len()) by {
            law_layout_keeps_labels(shorter, was, placements, k - 1, j);
        }
        let id = was[j].asset_id;
        assert(is_first_label(before, id, j) == is_first_label(was, id, j)) by {
            if is_first_label(was, id, j) {
                assert forall|i: int| 0 <= i < j implies (#[trigger] before[i]).asset_id != id by {
                    assert(was[i].asset_id != id);
                }
            }
            if is_first_label(before, id, j) {
                assert forall|i: int| 0 <= i < j implies (#[trigger] was[i]).asset_id != id by {
                    assert(before[i].asset_id != id);
                }
            }
        }
        assert(states[k][j] == if is_first_label(before, placements[k - 1].asset_id, j) {
            placements[k - 1]
        } else {
            before[j]
        });
        if p < k - 1 && (forall|q: int|
            p < q < k ==> (#[trigger] placements[q]).asset_id != was[j].asset_id) {
            assert(placements[k - 1].asset_id != id);
        }
        if forall|q: int| 0 <= q < k ==> (#[trigger] placements[q]).asset_id != was[j].asset_id {
            assert(placements[k - 1].asset_id != id);
        }
    }
}

/// The lists are joined in order: each placement of a list stands behind those of the lists
/// before it.
pub proof fn law_lists_are_joined_in_order(
    lists: Seq<Vec<LabelPlace>>,
    l: nat,
    n: nat,
    i: int,
)
    requires
        l < n <= lists.len(),
        0 <= i < lists[l as int]@.len(),
    ensures
        joined(lists, l).len() + i < joined(lists, n).len(),
        joined(lists, n)[joined(lists, l).len() + i] == lists[l as int]@[i],
    decreases n,
{
    if l < n - 1 {
        law_lists_are_joined_in_order(lists, l, (n - 1) as nat, i);
    }
}

/// Labels are laid out from their own sizes: each is measured, each visible container places
/// its labels by its own rules and those sizes, in order, and what comes of the last placement
/// is the layout.
pub proof fn law_layout_goes_by_the_measured_sizes<
    C,
    M: Fn(usize) -> Option<LabelBox>,
    L: Fn(&C, &HashMap<u32, LabelBox>) -> Vec<LabelPlace>,
>(
    measure: M,
    layout: L,
    containers: Seq<LayoutContainer<C>>,
    was: Seq<LabelPlace>,
    now: Seq<LabelPlace>,
    ms: Seq<Option<LabelBox>>,
    sizes: HashMap<u32, LabelBox>,
    lists: Seq<Vec<LabelPlace>>,
    states: Seq<Seq<LabelPlace>>,
    i: int,
    c: int,
)
    requires
        is_layout(measure, layout, containers, was, now, ms, sizes, lists, states),
    ensures
        0 <= i < was.len() ==> call_ensures(measure, (i as usize,), ms[i]),
        0 <= i < was.len() && ms[i] is Some && (forall|j: int|
            i < j < was.len() && (#[trigger] was[j]).asset_id == was[i].asset_id ==> ms[j] is None)
            ==> sizes@.dom().contains(was[i].asset_id) && Some(sizes@[was[i].asset_id]) == ms[i],
        0 <= c < containers.len() && containers[c].visible ==> exists|l: int|
            0 <= l < lists.len() && call_ensures(
                layout,
                (&containers[c].rules, &sizes),
                #[trigger] lists[l],
            ),
        now.len() == was.len(),
        0 <= i < was.len() ==> now[i].asset_id == was[i].asset_id,
        0 <= i < was.len() && (forall|q: int|
            0 <= q < joined(lists, lists.len()).len() ==> (#[trigger] joined(
                lists,
                lists.len(),
            )[q]).asset_id != was[i].asset_id) ==> now[i] == was[i],
{
    let placements = joined(lists, lists.len());
    let k = placements.len() as int;
    if 0 <= i < was.len() {
        let m = ms[i];
        law_box_is_the_last_measured(was, ms, was.len(), was[i].asset_id, i);
        law_layout_keeps_labels(states, was, placements, k, i);
        law_label_stands_where_it_was_placed(states, was, placements, k, i, 0);
    }
    lemma_states_keep_their_length(states, was, placements, k);
    if 0 <= c < containers.len() && containers[c].visible {
        law_visible_containers_lay_out(containers, containers.len(), c, 0, 0);
        let at = shown(containers, containers.len());
        let l = choose|l: int| 0 <= l < at.len() && at[l] == c;
        assert(call_ensures(layout, (&containers[at[l]].rules, &sizes), lists[l]));
    }
}

proof fn lemma_states_keep_their_length(
    states: Seq<Seq<LabelPlace>>,
    was: Seq<LabelPlace>,
    placements: Seq<LabelPlace>,
    k: int,
)
    requires
        0 <= k,
        are_moved(states, was, placements, k),
    ensures
        states[k].len() == was.len(),
    decreases k,
{
    if k > 0 {
        let shorter = states.drop_last();
        assert forall|i: int| 0 <= i < k - 1 implies is_moved(
            shorter[i],
            placements[i],
            #[trigger] shorter[i + 1],
        ) by {
            assert(shorter[i + 1] == states[i + 1]);
        }
        lemma_states_keep_their_length(shorter, was, placements, k - 1);
        assert(is_moved(states[k - 1], placements[k - 1], states[k - 1 + 1]));
    }
}

} // verus!
