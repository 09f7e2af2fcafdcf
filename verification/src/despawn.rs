//! Removing an entity with its descendants, and the draw slots that are retired with
//! them.

use crate::tables::lookup_entity;
use std::collections::HashMap;
use vstd::prelude::*;

verus! {

/// `to` is a child of `from`.
pub open spec fn is_child(children: Map<u64, Vec<u64>>, from: u64, to: u64) -> bool {
    children.dom().contains(from) && children[from]@.contains(to)
}

/// `to` is reached from `from` in `n` steps down.
pub open spec fn reached(children: Map<u64, Vec<u64>>, from: u64, to: u64, n: nat) -> bool
    decreases n,
{
    if n == 0 {
        from == to
    } else {
        exists|mid: u64|
            reached(children, from, mid, (n - 1) as nat) && #[trigger] is_child(children, mid, to)
    }
}

/// `to` is `from` or one of its descendants.
pub open spec fn in_subtree(children: Map<u64, Vec<u64>>, from: u64, to: u64) -> bool {
    exists|n: nat| reached(children, from, to, n)
}

/// The children of an entity.
pub open spec fn children_of(children: Map<u64, Vec<u64>>, e: u64) -> Seq<u64> {
    if children.dom().contains(e) {
        children[e]@
    } else {
        Seq::empty()
    }
}

/// The walk from a stack of entities: take the last one; where it is new, keep it and
/// stack its children. None where the walk takes more than `fuel` steps.
pub open spec fn walk(
    children: Map<u64, Vec<u64>>,
    kept: Seq<u64>,
    stack: Seq<u64>,
    fuel: nat,
) -> Option<Seq<u64>>
    decreases fuel,
{
    if stack.len() == 0 {
        Some(kept)
    } else if fuel == 0 {
        None
    } else if kept.contains(stack.last()) {
        walk(children, kept, stack.drop_last(), (fuel - 1) as nat)
    } else {
        walk(
            children,
            kept.push(stack.last()),
            stack.drop_last() + children_of(children, stack.last()),
            (fuel - 1) as nat,
        )
    }
}

/// Every entity that is listed as a child under one of `keys`.
spec fn listed_under(children: Map<u64, Vec<u64>>, keys: Set<u64>) -> Set<u64> {
    Set::new(|e: u64| exists|k: u64| #[trigger] keys.contains(k) && is_child(children, k, e))
}

proof fn lemma_listed_finite(children: Map<u64, Vec<u64>>, keys: Set<u64>)
    requires
        keys.finite(),
    ensures
        listed_under(children, keys).finite(),
    decreases keys.len(),
{
    if keys.len() == 0 {
        assert(keys =~= Set::empty());
        assert(listed_under(children, keys) =~= Set::empty());
    } else {
        let k = keys.choose();
        let rest = keys.remove(k);
        lemma_listed_finite(children, rest);
        let own = if children.dom().contains(k) {
            children[k]@.to_set()
        } else {
            Set::empty()
        };
        if children.dom().contains(k) {
            vstd::seq_lib::seq_to_set_is_finite(children[k]@);
        }
        assert(listed_under(children, keys) =~= listed_under(children, rest).union(own)) by {
            assert forall|e: u64| listed_under(children, keys).contains(e)
                <==> listed_under(children, rest).union(own).contains(e) by {
                if listed_under(children, keys).contains(e) {
                    let j = choose|j: u64| #[trigger] keys.contains(j) && is_child(children, j, e);
                    if j != k {
                        assert(rest.contains(j));
                    }
                }
                if listed_under(children, rest).contains(e) {
                    let j = choose|j: u64| #[trigger] rest.contains(j) && is_child(children, j, e);
                    assert(keys.contains(j));
                }
                if own.contains(e) {
                    assert(keys.contains(k) && is_child(children, k, e));
                }
            }
        }
    }
}

/// Everything the walk can meet.
spec fn universe(children: Map<u64, Vec<u64>>, root: u64) -> Set<u64> {
    listed_under(children, children.dom()).insert(root)
}

proof fn lemma_closed_contains_reached(
    children: Map<u64, Vec<u64>>,
    kept: Seq<u64>,
    root: u64,
    e: u64,
    n: nat,
)
    requires
        kept.contains(root),
        forall|a: u64, b: u64| kept.contains(a) && #[trigger] is_child(children, a, b) ==> kept.contains(
            b,
        ),
        reached(children, root, e, n),
    ensures
        kept.contains(e),
    decreases n,
{
    if n > 0 {
        let mid = choose|mid: u64|
            reached(children, root, mid, (n - 1) as nat) && #[trigger] is_child(children, mid, e);
        lemma_closed_contains_reached(children, kept, root, mid, (n - 1) as nat);
    }
}

/// The number of walk steps already taken may be added on.
proof fn lemma_walk_more_fuel(
    children: Map<u64, Vec<u64>>,
    kept: Seq<u64>,
    stack: Seq<u64>,
    fuel: nat,
    more: nat,
)
    requires
        walk(children, kept, stack, fuel) is Some,
        fuel <= more,
    ensures
        walk(children, kept, stack, more) == walk(children, kept, stack, fuel),
    decreases fuel,
{
    if stack.len() > 0 {
        if kept.contains(stack.last()) {
            lemma_walk_more_fuel(
                children,
                kept,
                stack.drop_last(),
                (fuel - 1) as nat,
                (more - 1) as nat,
            );
        } else {
            lemma_walk_more_fuel(
                children,
                kept.push(stack.last()),
                stack.drop_last() + children_of(children, stack.last()),
                (fuel - 1) as nat,
                (more - 1) as nat,
            );
        }
    }
}

/// One step of the walk from the start: after `taken` steps it stands at
/// `(kept, stack)`.
spec fn at_step(
    children: Map<u64, Vec<u64>>,
    root: u64,
    kept: Seq<u64>,
    stack: Seq<u64>,
    taken: nat,
) -> bool {
    forall|fuel: nat| #[trigger]
        walk(children, kept, stack, fuel) == walk(
            children,
            Seq::empty(),
            seq![root],
            (fuel + taken) as nat,
        )
}

fn has(list: &Vec<u64>, e: u64) -> (r: bool)
    ensures
        r == list@.contains(e),
{
    let mut i: usize = 0;
    while i < list.len()
        invariant
            i <= list@.len(),
            forall|j: int| 0 <= j < i ==> list@[j] != e,
        decreases list@.len() - i,
    {
        if list[i] == e {
            return true;
        }
        i = i + 1;
    }
    false
}

fn push_children(stack: &mut Vec<u64>, list: &Vec<u64>)
    ensures
        final(stack)@ == old(stack)@ + list@,
{
    let ghost was = stack@;
    let mut i: usize = 0;
    while i < list.len()
        invariant
            i <= list@.len(),
            stack@ == was + list@.subrange(0, i as int),
        decreases list@.len() - i,
    {
        stack.push(list[i]);
        i = i + 1;
        assert(stack@ =~= was + list@.subrange(0, i as int));
    }
    assert(list@.subrange(0, i as int) =~= list@);
}

/// What holds of the entities kept and stacked while the subtree of `root` is
/// collected.
spec fn collecting(children: Map<u64, Vec<u64>>, root: u64, kept: Seq<u64>, stack: Seq<u64>) -> bool {
    &&& kept.no_duplicates()
    &&& forall|i: int| 0 <= i < kept.len() ==> in_subtree(children, root, #[trigger] kept[i])
    &&& forall|i: int| 0 <= i < stack.len() ==> in_subtree(children, root, #[trigger] stack[i])
    &&& forall|a: u64, b: u64|
        kept.contains(a) && #[trigger] is_child(children, a, b) ==> kept.contains(b)
            || stack.contains(b)
    &&& kept.contains(root) || stack.contains(root)
    &&& kept.len() > 0 ==> kept[0] == root
    &&& kept.len() == 0 ==> stack =~= seq![root]
    &&& forall|i: int| 0 <= i < kept.len() ==> universe(children, root).contains(#[trigger] kept[i])
    &&& forall|i: int|
        0 <= i < stack.len() ==> universe(children, root).contains(#[trigger] stack[i])
}

proof fn lemma_skip(children: Map<u64, Vec<u64>>, root: u64, kept: Seq<u64>, stack: Seq<u64>)
    requires
        collecting(children, root, kept, stack),
        stack.len() > 0,
        kept.contains(stack.last()),
    ensures
        collecting(children, root, kept, stack.drop_last()),
{
    let rest = stack.drop_last();
    assert forall|b: u64| stack.contains(b) && !kept.contains(b) implies rest.contains(b) by {
        let i = choose|i: int| 0 <= i < stack.len() && stack[i] == b;
        assert(rest[i] == b);
    }
}

proof fn lemma_keep(children: Map<u64, Vec<u64>>, root: u64, kept: Seq<u64>, stack: Seq<u64>)
    requires
        collecting(children, root, kept, stack),
        stack.len() > 0,
        !kept.contains(stack.last()),
    ensures
        collecting(
            children,
            root,
            kept.push(stack.last()),
            stack.drop_last() + children_of(children, stack.last()),
        ),
{
    let e = stack.last();
    let own = children_of(children, e);
    let now = kept.push(e);
    let next = stack.drop_last() + own;
    assert(now[kept.len() as int] == e);
    assert forall|x: u64| kept.contains(x) implies now.contains(x) by {
        let i = choose|i: int| 0 <= i < kept.len() && kept[i] == x;
        assert(now[i] == x);
    }
    assert forall|x: u64| stack.contains(x) && x != e implies next.contains(x) by {
        let i = choose|i: int| 0 <= i < stack.len() && stack[i] == x;
        assert(next[i] == x);
    }
    assert(in_subtree(children, root, stack[stack.len() - 1]));
    let n = choose|n: nat| reached(children, root, e, n);
    assert forall|i: int| 0 <= i < next.len() implies in_subtree(
        children,
        root,
        #[trigger] next[i],
    ) by {
        if i < stack.len() - 1 {
            assert(next[i] == stack[i]);
        } else {
            let x = own[i - (stack.len() - 1)];
            assert(next[i] == x);
            assert(is_child(children, e, x));
            assert(reached(children, root, x, (n + 1) as nat)) by {
                assert(reached(children, root, e, ((n + 1) - 1) as nat) && is_child(children, e, x));
            }
        }
    }
    assert forall|i: int| 0 <= i < next.len() implies universe(children, root).contains(
        #[trigger] next[i],
    ) by {
        if i < stack.len() - 1 {
            assert(next[i] == stack[i]);
        } else {
            let x = own[i - (stack.len() - 1)];
            assert(next[i] == x);
            assert(children.dom().contains(e) && is_child(children, e, x));
        }
    }
    assert forall|i: int| 0 <= i < now.len() implies in_subtree(children, root, #[trigger] now[i])
        && universe(children, root).contains(now[i]) by {
        if i < kept.len() {
            assert(now[i] == kept[i]);
        } else {
            assert(now[i] == stack[stack.len() - 1]);
        }
    }
    assert forall|a: u64, b: u64| now.contains(a) && #[trigger] is_child(
        children,
        a,
        b,
    ) implies now.contains(b) || next.contains(b) by {
        if a == e {
            let j = choose|j: int| 0 <= j < own.len() && own[j] == b;
            assert(next[stack.len() - 1 + j] == b);
        } else {
            let i = choose|i: int| 0 <= i < now.len() && now[i] == a;
            assert(kept[i] == a);
            assert(kept.contains(b) || stack.contains(b));
        }
    }
    if kept.len() == 0 {
        assert(stack[0] == root);
    }
}

proof fn lemma_kept_fits(children: Map<u64, Vec<u64>>, root: u64, kept: Seq<u64>, stack: Seq<u64>)
    requires
        collecting(children, root, kept, stack),
        children.dom().finite(),
    ensures
        universe(children, root).finite(),
        kept.len() <= universe(children, root).len(),
{
    lemma_listed_finite(children, children.dom());
    kept.unique_seq_to_set();
    assert(kept.to_set().subset_of(universe(children, root)));
    vstd::set_lib::lemma_len_subset(kept.to_set(), universe(children, root));
}

/// Collect an entity with all its descendants, each once. A cycle among the children
/// ends the walk where it closes.
pub fn collect_subtree(children: &HashMap<u64, Vec<u64>>, root: u64) -> (r: Vec<u64>)
    ensures
        r@.len() > 0,
        r@[0] == root,
        r@.no_duplicates(),
        forall|e: u64| #[trigger] r@.contains(e) <==> in_subtree(children@, root, e),
        exists|fuel: nat| walk(children@, Seq::empty(), seq![root], fuel) == Some(r@),
{
    broadcast use vstd::std_specs::hash::group_hash_axioms;

    let mut kept: Vec<u64> = Vec::new();
    let mut stack: Vec<u64> = Vec::new();
    stack.push(root);
    let ghost map = children@;
    let ghost mut taken: nat = 0;
    proof {
        assert(stack@ =~= seq![root]);
        assert(stack@[0] == root);
        assert(reached(map, root, root, 0));
    }
    while stack.len() > 0
        invariant
            map == children@,
            map.dom().finite(),
            collecting(map, root, kept@, stack@),
            at_step(map, root, kept@, stack@, taken),
        decreases universe(map, root).len() - kept@.len(), stack@.len(),
    {
        let ghost kept_was = kept@;
        let ghost stack_was = stack@;
        proof {
            lemma_kept_fits(map, root, kept@, stack@);
        }
        let e: u64 = stack.pop().unwrap();
        assert(stack@ =~= stack_was.drop_last());
        if has(&kept, e) {
            proof {
                lemma_skip(map, root, kept_was, stack_was);
            }
        } else {
            kept.push(e);
            match lookup_entity(children, e) {
                Some(list) => {
                    push_children(&mut stack, list);
                },
                None => {
                    assert(stack@ =~= stack_was.drop_last() + children_of(map, e));
                },
            }
            proof {
                lemma_keep(map, root, kept_was, stack_was);
                lemma_kept_fits(map, root, kept@, stack@);
            }
        }
        proof {
            taken = taken + 1;
            assert forall|fuel: nat| #[trigger]
                walk(map, kept@, stack@, fuel) == walk(
                map,
                Seq::empty(),
                seq![root],
                (fuel + taken) as nat,
            ) by {
                let step = walk(map, kept_was, stack_was, (fuel + 1) as nat);
                assert(step == walk(
                    map,
                    Seq::empty(),
                    seq![root],
                    ((fuel + 1) + (taken - 1)) as nat,
                ));
            }
        }
    }
    proof {
        assert(walk(map, kept@, stack@, 0) == Some(kept@));
        assert(walk(map, Seq::empty(), seq![root], (0 + taken) as nat) == Some(kept@));
        assert forall|e: u64| #[trigger] kept@.contains(e) <==> in_subtree(map, root, e) by {
            if kept@.contains(e) {
                let i = choose|i: int| 0 <= i < kept@.len() && kept@[i] == e;
                assert(in_subtree(map, root, kept@[i]));
            }
            if in_subtree(map, root, e) {
                let n = choose|n: nat| reached(map, root, e, n);
                lemma_closed_contains_reached(map, kept@, root, e, n);
            }
        }
    }
    kept
}

/// The walk has at most one outcome.
pub proof fn law_walk_is_determined(
    children: Map<u64, Vec<u64>>,
    root: u64,
    a: nat,
    b: nat,
)
    requires
        walk(children, Seq::empty(), seq![root], a) is Some,
        walk(children, Seq::empty(), seq![root], b) is Some,
    ensures
        walk(children, Seq::empty(), seq![root], a) == walk(
            children,
            Seq::empty(),
            seq![root],
            b,
        ),
{
    if a <= b {
        lemma_walk_more_fuel(children, Seq::empty(), seq![root], a, b);
    } else {
        lemma_walk_more_fuel(children, Seq::empty(), seq![root], b, a);
    }
}

/// The draw slots of the first `k` entities, in order.
pub open spec fn slots_of(
    handles: Map<u64, Vec<u32>>,
    entities: Seq<u64>,
    k: nat,
) -> Seq<usize>
    decreases k,
{
    if k == 0 {
        Seq::empty()
    } else {
        slots_of(handles, entities, (k - 1) as nat) + if handles.dom().contains(entities[k - 1]) {
            Seq::new(
                handles[entities[k - 1]]@.len(),
                |i: int| handles[entities[k - 1]]@[i] as usize,
            )
        } else {
            Seq::empty()
        }
    }
}

/// What a removal takes away: the entities, and the draw slots to retire.
#[derive(Debug)]
pub struct Despawned {
    pub entities: Vec<u64>,
    pub retired: Vec<usize>,
}

fn push_slots(out: &mut Vec<usize>, slots: &Vec<u32>)
    ensures
        final(out)@ == old(out)@ + Seq::new(slots@.len(), |i: int| slots@[i] as usize),
{
    let ghost was = out@;
    let ghost all = Seq::new(slots@.len(), |i: int| slots@[i] as usize);
    let mut i: usize = 0;
    while i < slots.len()
        invariant
            i <= slots@.len(),
            all == Seq::new(slots@.len(), |i: int| slots@[i] as usize),
            out@ == was + all.subrange(0, i as int),
        decreases slots@.len() - i,
    {
        out.push(slots[i] as usize);
        i = i + 1;
        assert(out@ =~= was + all.subrange(0, i as int));
    }
    assert(all.subrange(0, i as int) =~= all);
}

/// Remove an entity with its descendants: every draw slot they own is retired, and
/// their handles and children are dropped.
pub fn despawn_collected(
    children: &mut HashMap<u64, Vec<u64>>,
    handles: &mut HashMap<u64, Vec<u32>>,
    root: u64,
) -> (r: Despawned)
    ensures
        r.entities@.len() > 0,
        r.entities@[0] == root,
        r.entities@.no_duplicates(),
        forall|e: u64| #[trigger]
            r.entities@.contains(e) <==> in_subtree(old(children)@, root, e),
        exists|fuel: nat|
            walk(old(children)@, Seq::empty(), seq![root], fuel) == Some(r.entities@),
        r.retired@ == slots_of(old(handles)@, r.entities@, r.entities@.len()),
        final(handles)@ == old(handles)@.remove_keys(r.entities@.to_set()),
        final(children)@ == old(children)@.remove_keys(r.entities@.to_set()),
{
    let entities: Vec<u64> = collect_subtree(children, root);
    let ghost handles_was = handles@;
    let ghost children_was = children@;
    let mut retired: Vec<usize> = Vec::new();
    let mut k: usize = 0;
    proof {
        assert(entities@.subrange(0, 0).to_set() =~= Set::empty());
        assert(handles@ =~= handles_was.remove_keys(entities@.subrange(0, 0).to_set()));
        assert(children@ =~= children_was.remove_keys(entities@.subrange(0, 0).to_set()));
    }
    while k < entities.len()
        invariant
            k <= entities@.len(),
            entities@.no_duplicates(),
            handles@ == handles_was.remove_keys(entities@.subrange(0, k as int).to_set()),
            children@ == children_was.remove_keys(entities@.subrange(0, k as int).to_set()),
            retired@ == slots_of(handles_was, entities@, k as nat),
        decreases entities@.len() - k,
    {
        broadcast use vstd::std_specs::hash::group_hash_axioms;

        let e: u64 = entities[k];
        let ghost head = entities@.subrange(0, k as int);
        let ghost next = entities@.subrange(0, k + 1);
        proof {
            assert(!head.to_set().contains(e)) by {
                if head.contains(e) {
                    let i = choose|i: int| 0 <= i < head.len() && head[i] == e;
                    assert(entities@[i] == entities@[k as int]);
                }
            }
            assert(next.to_set() =~= head.to_set().insert(e)) by {
                assert(next =~= head.push(e));
                assert forall|x: u64| next.contains(x) <==> head.contains(x) || x == e by {
                    if head.contains(x) {
                        let i = choose|i: int| 0 <= i < head.len() && head[i] == x;
                        assert(next[i] == x);
                    }
                    assert(next[k as int] == e);
                    if next.contains(x) && x != e {
                        let i = choose|i: int| 0 <= i < next.len() && next[i] == x;
                        assert(head[i] == x);
                    }
                }
            }
        }
        match lookup_entity(&*handles, e) {
            Some(slots) => {
                push_slots(&mut retired, slots);
            },
            None => {
                assert(retired@ + Seq::<usize>::empty() =~= retired@);
            },
        }
        handles.remove(&e);
        children.remove(&e);
        proof {
            assert(handles@ =~= handles_was.remove_keys(next.to_set()));
            assert(children@ =~= children_was.remove_keys(next.to_set()));
        }
        k = k + 1;
    }
    assert(entities@.subrange(0, k as int) =~= entities@);
    Despawned { entities, retired }
}

/// Entities outside the subtree keep their handles, and none inside it does.
pub proof fn law_despawn_spares_others(
    children: Map<u64, Vec<u64>>,
    handles: Map<u64, Vec<u32>>,
    after: Map<u64, Vec<u32>>,
    entities: Seq<u64>,
    root: u64,
    e: u64,
)
    requires
        forall|x: u64| #[trigger] entities.contains(x) <==> in_subtree(children, root, x),
        after == handles.remove_keys(entities.to_set()),
    ensures
        in_subtree(children, root, e) ==> !after.dom().contains(e),
        !in_subtree(children, root, e) ==> (after.dom().contains(e) <==> handles.dom().contains(e)),
        !in_subtree(children, root, e) && handles.dom().contains(e) ==> after[e] == handles[e],
{
    assert(entities.contains(e) <==> entities.to_set().contains(e));
}

/// A draw slot is retired exactly where one of the removed entities owns it.
pub proof fn law_owned_slots_are_retired(
    handles: Map<u64, Vec<u32>>,
    entities: Seq<u64>,
    k: nat,
    slot: u32,
)
    requires
        k <= entities.len(),
    ensures
        slots_of(handles, entities, k).contains(slot as usize) <==> exists|i: int|
            0 <= i < k && handles.dom().contains(#[trigger] entities[i])
                && handles[entities[i]]@.contains(slot),
    decreases k,
{
    if k > 0 {
        law_owned_slots_are_retired(handles, entities, (k - 1) as nat, slot);
        let before = slots_of(handles, entities, (k - 1) as nat);
        let now = slots_of(handles, entities, k);
        let e = entities[k - 1];
        if before.contains(slot as usize) {
            let x = choose|x: int| 0 <= x < before.len() && before[x] == slot as usize;
            assert(now[x] == slot as usize);
        }
        if handles.dom().contains(e) && handles[e]@.contains(slot) {
            let x = choose|x: int| 0 <= x < handles[e]@.len() && handles[e]@[x] == slot;
            assert(now[before.len() + x] == slot as usize);
        }
        if now.contains(slot as usize) && !before.contains(slot as usize) {
            let x = choose|x: int| 0 <= x < now.len() && now[x] == slot as usize;
            assert(x >= before.len());
            assert(handles.dom().contains(e));
            assert(handles[e]@[x - before.len()] == slot);
        }
    }
}

/// An entity, its children and theirs in turn are all of its subtree.
pub proof fn law_subtree_is_the_entity_and_what_hangs_below(
    children: Map<u64, Vec<u64>>,
    root: u64,
    e: u64,
    child: u64,
)
    ensures
        in_subtree(children, root, root),
        in_subtree(children, root, e) && children.dom().contains(e) && children[e]@.contains(child)
            ==> in_subtree(children, root, child),
        in_subtree(children, root, e) && e != root ==> exists|up: u64|
            in_subtree(children, root, up) && children.dom().contains(up)
                && #[trigger] children[up]@.contains(e),
{
    assert(reached(children, root, root, 0));
    if in_subtree(children, root, e) {
        let n = choose|n: nat| reached(children, root, e, n);
        if children.dom().contains(e) && children[e]@.contains(child) {
            assert(is_child(children, e, child));
            assert(reached(children, root, child, (n + 1) as nat)) by {
                assert(reached(children, root, e, ((n + 1) - 1) as nat) && is_child(
                    children,
                    e,
                    child,
                ));
            }
        }
        if e != root {
            let up = choose|mid: u64|
                reached(children, root, mid, (n - 1) as nat) && #[trigger] is_child(
                    children,
                    mid,
                    e,
                );
            assert(in_subtree(children, root, up));
            assert(children[up]@.contains(e));
        }
    }
}

} // verus!
