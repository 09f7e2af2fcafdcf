//! World transforms of a parent-child hierarchy.
//!
//! The composition of two matrices is the caller's; what is composed with what,
//! and in which order, is decided here.

use crate::tables::lookup_entity;
use std::collections::HashMap;
use vstd::prelude::*;

verus! {

/// The parent of node `i`; a node past the end of the table is a root.
pub open spec fn parent_of(parents: Seq<Option<usize>>, i: int) -> Option<usize> {
    if 0 <= i < parents.len() {
        parents[i]
    } else {
        None
    }
}

/// Whether the ancestors of `i` reach a root within `fuel` steps.
pub open spec fn rooted(parents: Seq<Option<usize>>, n: nat, i: int, fuel: nat) -> bool
    decreases fuel,
{
    match parent_of(parents, i) {
        None => true,
        Some(p) => p < n && fuel > 0 && rooted(parents, n, p as int, (fuel - 1) as nat),
    }
}

/// Whether node `i` hangs from a root: its ancestors neither cycle nor leave the
/// table.
pub open spec fn resolves(parents: Seq<Option<usize>>, n: nat, i: int) -> bool {
    exists|fuel: nat| rooted(parents, n, i, fuel)
}

/// Whether `world` holds the world transforms: roots their own, nodes that hang
/// from a root the composition of their parent's and their own, all others their
/// own.
pub open spec fn is_world<M, F: Fn(M, M) -> M>(
    locals: Seq<M>,
    parents: Seq<Option<usize>>,
    compose: F,
    world: Seq<M>,
) -> bool {
    &&& world.len() == locals.len()
    &&& forall|i: int|
        0 <= i < locals.len() ==> match (resolves(parents, locals.len(), i), parent_of(parents, i)) {
            (true, Some(p)) => call_ensures(
                compose,
                (world[p as int], locals[i]),
                #[trigger] world[i],
            ),
            _ => world[i] == locals[i],
        }
}

/// The number of nodes not yet resolved.
spec fn unresolved<M>(world: Seq<Option<M>>) -> nat
    decreases world.len(),
{
    if world.len() == 0 {
        0
    } else {
        unresolved(world.drop_last()) + if world.last() is None {
            1nat
        } else {
            0nat
        }
    }
}

proof fn lemma_unresolved_drops<M>(world: Seq<Option<M>>, i: int, m: M)
    requires
        0 <= i < world.len(),
        world[i] is None,
    ensures
        unresolved(world.update(i, Some(m))) + 1 == unresolved(world),
    decreases world.len(),
{
    let next = world.update(i, Some(m));
    if i == world.len() - 1 {
        assert(next.drop_last() =~= world.drop_last());
    } else {
        assert(next.drop_last() =~= world.drop_last().update(i, Some(m)));
        lemma_unresolved_drops(world.drop_last(), i, m);
    }
}

/// What holds of a resolved node.
spec fn settled<M, F: Fn(M, M) -> M>(
    locals: Seq<M>,
    parents: Seq<Option<usize>>,
    compose: F,
    world: Seq<Option<M>>,
    i: int,
) -> bool {
    &&& resolves(parents, locals.len(), i)
    &&& match parent_of(parents, i) {
        None => world[i] == Some(locals[i]),
        Some(p) => {
            &&& p < locals.len()
            &&& world[p as int] is Some
            &&& call_ensures(compose, (world[p as int]->0, locals[i]), world[i]->0)
        },
    }
}

/// Nothing more can be resolved.
spec fn closed_under_parents<M>(parents: Seq<Option<usize>>, world: Seq<Option<M>>) -> bool {
    forall|i: int|
        0 <= i < world.len() && #[trigger] world[i] is None ==> match parent_of(parents, i) {
            None => false,
            Some(p) => p >= world.len() || world[p as int] is None,
        }
}

proof fn lemma_closed_is_complete<M>(
    parents: Seq<Option<usize>>,
    world: Seq<Option<M>>,
    i: int,
    fuel: nat,
)
    requires
        closed_under_parents(parents, world),
        0 <= i < world.len(),
        rooted(parents, world.len(), i, fuel),
    ensures
        world[i] is Some,
    decreases fuel,
{
    match parent_of(parents, i) {
        None => {},
        Some(p) => {
            lemma_closed_is_complete(parents, world, p as int, (fuel - 1) as nat);
        },
    }
}

/// Resolve the world transforms of a flat list of nodes. `parents[i]` is the
/// index of node `i`'s parent. A node whose ancestors form a cycle keeps its own
/// transform.
pub fn compute_world_matrices<M: Copy, F: Fn(M, M) -> M>(
    locals: &Vec<M>,
    parents: &Vec<Option<usize>>,
    compose: F,
) -> (world: Vec<M>)
    requires
        forall|a: M, b: M| #[trigger] call_requires(compose, (a, b)),
    ensures
        is_world(locals@, parents@, compose, world@),
{
    let n: usize = locals.len();
    let mut world: Vec<Option<M>> = Vec::new();
    let mut i: usize = 0;
    while i < n
        invariant
            i <= n,
            world@.len() == i,
            forall|k: int| 0 <= k < i ==> #[trigger] world@[k] is None,
        decreases n - i,
    {
        world.push(None);
        i = i + 1;
    }
    let mut changed: bool = true;
    while changed
        invariant
            n == locals@.len(),
            world@.len() == n,
            forall|a: M, b: M| #[trigger] call_requires(compose, (a, b)),
            forall|k: int|
                0 <= k < n && #[trigger] world@[k] is Some ==> settled(
                    locals@,
                    parents@,
                    compose,
                    world@,
                    k,
                ),
            !changed ==> closed_under_parents(parents@, world@),
        decreases
                2 * unresolved(world@) + if changed {
                    1nat
                } else {
                    0nat
                },
    {
        changed = false;
        let ghost start = world@;
        let mut i: usize = 0;
        while i < n
            invariant
                n == locals@.len(),
                i <= n,
                world@.len() == n,
                start.len() == n,
                forall|a: M, b: M| #[trigger] call_requires(compose, (a, b)),
                forall|k: int|
                    0 <= k < n && #[trigger] world@[k] is Some ==> settled(
                        locals@,
                        parents@,
                        compose,
                        world@,
                        k,
                    ),
                unresolved(world@) <= unresolved(start),
                changed ==> unresolved(world@) < unresolved(start),
                !changed ==> world@ == start,
                !changed ==> forall|k: int|
                    0 <= k < i && #[trigger] world@[k] is None ==> match parent_of(parents@, k) {
                        None => false,
                        Some(p) => p >= n || world@[p as int] is None,
                    },
            decreases n - i,
        {
            let open: bool = match world[i] {
                Some(_) => false,
                None => true,
            };
            if open {
                let parent: Option<usize> = if i < parents.len() {
                    parents[i]
                } else {
                    None
                };
                let resolved: Option<M> = match parent {
                    None => Some(locals[i]),
                    Some(p) => {
                        if p < n {
                            match world[p] {
                                Some(pw) => Some(compose(pw, locals[i])),
                                None => None,
                            }
                        } else {
                            None
                        }
                    },
                };
                match resolved {
                    Some(w) => {
                        let ghost was = world@;
                        world.set(i, Some(w));
                        proof {
                            lemma_unresolved_drops(was, i as int, w);
                            match parent {
                                None => {
                                    assert(rooted(parents@, n as nat, i as int, 0));
                                },
                                Some(p) => {
                                    assert(settled(locals@, parents@, compose, was, p as int));
                                    let fuel = choose|fuel: nat|
                                        rooted(parents@, n as nat, p as int, fuel);
                                    assert(rooted(parents@, n as nat, i as int, fuel + 1));
                                },
                            }
                            assert forall|k: int| 0 <= k < n && #[trigger] world@[k] is Some implies settled(
                                locals@,
                                parents@,
                                compose,
                                world@,
                                k,
                            ) by {
                                if k != i {
                                    assert(was[k] is Some);
                                    assert(settled(locals@, parents@, compose, was, k));
                                }
                            }
                        }
                        changed = true;
                    },
                    None => {},
                }
            }
            i = i + 1;
        }
    }
    let mut out: Vec<M> = Vec::new();
    let mut i: usize = 0;
    while i < n
        invariant
            n == locals@.len(),
            world@.len() == n,
            i <= n,
            out@.len() == i,
            forall|k: int|
                0 <= k < i ==> #[trigger] out@[k] == match world@[k] {
                    Some(w) => w,
                    None => locals@[k],
                },
        decreases n - i,
    {
        out.push(
            match world[i] {
                Some(w) => w,
                None => locals[i],
            },
        );
        i = i + 1;
    }
    proof {
        assert forall|k: int| 0 <= k < n implies match (
            resolves(parents@, n as nat, k),
            parent_of(parents@, k),
        ) {
            (true, Some(p)) => call_ensures(
                compose,
                (out@[p as int], locals@[k]),
                #[trigger] out@[k],
            ),
            _ => out@[k] == locals@[k],
        } by {
            if world@[k] is Some {
                assert(settled(locals@, parents@, compose, world@, k));
            } else if resolves(parents@, n as nat, k) {
                let fuel = choose|fuel: nat| rooted(parents@, n as nat, k, fuel);
                lemma_closed_is_complete(parents@, world@, k, fuel);
            }
        }
    }
    out
}

/// The column index of an entity.
pub open spec fn entity_index<M>(locals: Seq<(u64, M)>, e: u64) -> Option<usize> {
    if exists|i: int| 0 <= i < locals.len() && (#[trigger] locals[i]).0 == e {
        Some((choose|i: int| 0 <= i < locals.len() && (#[trigger] locals[i]).0 == e) as usize)
    } else {
        None
    }
}

/// The parent table of a column of entities. A parent that is not in the column
/// stands past its end, where nothing resolves.
pub open spec fn parent_table<M>(
    locals: Seq<(u64, M)>,
    parents: Map<u64, u64>,
) -> Seq<Option<usize>> {
    Seq::new(
        locals.len(),
        |i: int|
            if parents.dom().contains(locals[i].0) {
                match entity_index(locals, parents[locals[i].0]) {
                    Some(p) => Some(p),
                    None => Some(locals.len() as usize),
                }
            } else {
                None
            },
    )
}

/// No entity occurs twice in a column.
pub open spec fn distinct_entities<M>(locals: Seq<(u64, M)>) -> bool {
    forall|i: int, j: int|
        0 <= i < j < locals.len() ==> (#[trigger] locals[i]).0 != (#[trigger] locals[j]).0
}

/// The transforms of a column, without the entities.
pub open spec fn transforms<M>(locals: Seq<(u64, M)>) -> Seq<M> {
    Seq::new(locals.len(), |i: int| locals[i].1)
}

/// The world transform of every entity that has a local one: the entity-keyed
/// form of [`compute_world_matrices`], in column order.
pub fn propagate_transforms<M: Copy, F: Fn(M, M) -> M>(
    locals: &Vec<(u64, M)>,
    parents: &HashMap<u64, u64>,
    compose: F,
) -> (world: Vec<M>)
    requires
        distinct_entities(locals@),
        forall|a: M, b: M| #[trigger] call_requires(compose, (a, b)),
    ensures
        is_world(transforms(locals@), parent_table(locals@, parents@), compose, world@),
{
    broadcast use vstd::std_specs::hash::group_hash_axioms;

    let n: usize = locals.len();
    let mut index: HashMap<u64, usize> = HashMap::new();
    let mut plain: Vec<M> = Vec::new();
    let mut i: usize = 0;
    while i < n
        invariant
            i <= n,
            n == locals@.len(),
            distinct_entities(locals@),
            plain@.len() == i,
            forall|k: int| 0 <= k < i ==> #[trigger] plain@[k] == locals@[k].1,
            forall|k: int|
                0 <= k < i ==> index@.dom().contains((#[trigger] locals@[k]).0)
                    && index@[locals@[k].0] == k,
            forall|e: u64|
                #[trigger] index@.dom().contains(e) ==> index@[e] < i
                    && locals@[index@[e] as int].0 == e,
        decreases n - i,
    {
        broadcast use vstd::std_specs::hash::group_hash_axioms;

        index.insert(locals[i].0, i);
        plain.push(locals[i].1);
        i = i + 1;
    }
    let mut table: Vec<Option<usize>> = Vec::new();
    let mut i: usize = 0;
    while i < n
        invariant
            i <= n,
            n == locals@.len(),
            distinct_entities(locals@),
            forall|k: int|
                0 <= k < n ==> index@.dom().contains((#[trigger] locals@[k]).0)
                    && index@[locals@[k].0] == k,
            forall|e: u64|
                #[trigger] index@.dom().contains(e) ==> index@[e] < n
                    && locals@[index@[e] as int].0 == e,
            table@.len() == i,
            forall|k: int|
                0 <= k < i ==> #[trigger] table@[k] == parent_table(locals@, parents@)[k],
        decreases n - i,
    {
        let e: u64 = locals[i].0;
        let parent: Option<usize> = match lookup_entity(parents, e) {
            None => None,
            Some(p) => {
                proof {
                    lemma_entity_index(locals@, index@, *p);
                }
                match lookup_entity(&index, *p) {
                    Some(at) => Some(*at),
                    None => Some(n),
                }
            },
        };
        table.push(parent);
        i = i + 1;
    }
    assert(plain@ =~= transforms(locals@));
    assert(table@ =~= parent_table(locals@, parents@));
    compute_world_matrices(&plain, &table, compose)
}

proof fn lemma_entity_index<M>(locals: Seq<(u64, M)>, index: Map<u64, usize>, e: u64)
    requires
        distinct_entities(locals),
        forall|k: int|
            0 <= k < locals.len() ==> index.dom().contains((#[trigger] locals[k]).0)
                && index[locals[k].0] == k,
        forall|e: u64|
            #[trigger] index.dom().contains(e) ==> index[e] < locals.len()
                && locals[index[e] as int].0 == e,
    ensures
        entity_index(locals, e) == if index.dom().contains(e) {
            Some(index[e])
        } else {
            None
        },
{
    if index.dom().contains(e) {
        let k = index[e] as int;
        assert(locals[k].0 == e);
        let j = choose|i: int| 0 <= i < locals.len() && (#[trigger] locals[i]).0 == e;
        if j < k {
            assert(locals[j].0 != locals[k].0);
        }
        if k < j {
            assert(locals[k].0 != locals[j].0);
        }
    }
}

/// Whether a composition gives the same product whenever it is asked for one.
pub open spec fn deterministic<M, F: Fn(M, M) -> M>(compose: F) -> bool {
    forall|a: M, b: M, x: M, y: M| #[trigger]
        call_ensures(compose, (a, b), x) && #[trigger] call_ensures(compose, (a, b), y) ==> x == y
}

/// Whether two parent tables link `n` nodes alike. A link that leaves the table leads
/// nowhere, wherever past the end it points.
pub open spec fn same_links(p: Seq<Option<usize>>, q: Seq<Option<usize>>, n: nat) -> bool {
    forall|i: int|
        0 <= i < n ==> match (parent_of(p, i), #[trigger] parent_of(q, i)) {
            (None, None) => true,
            (Some(a), Some(b)) => a == b || (a >= n && b >= n),
            _ => false,
        }
}

proof fn lemma_same_links_rooted(
    p: Seq<Option<usize>>,
    q: Seq<Option<usize>>,
    n: nat,
    i: int,
    fuel: nat,
)
    requires
        same_links(p, q, n),
        0 <= i < n,
    ensures
        rooted(p, n, i, fuel) == rooted(q, n, i, fuel),
    decreases fuel,
{
    match (parent_of(p, i), parent_of(q, i)) {
        (Some(a), Some(b)) => {
            if a == b && a < n && fuel > 0 {
                lemma_same_links_rooted(p, q, n, a as int, (fuel - 1) as nat);
            }
        },
        _ => {},
    }
}

proof fn lemma_same_links_resolve(p: Seq<Option<usize>>, q: Seq<Option<usize>>, n: nat, i: int)
    requires
        same_links(p, q, n),
        0 <= i < n,
    ensures
        resolves(p, n, i) == resolves(q, n, i),
{
    if resolves(p, n, i) {
        let fuel = choose|fuel: nat| rooted(p, n, i, fuel);
        lemma_same_links_rooted(p, q, n, i, fuel);
        assert(rooted(q, n, i, fuel));
    }
    if resolves(q, n, i) {
        let fuel = choose|fuel: nat| rooted(q, n, i, fuel);
        lemma_same_links_rooted(p, q, n, i, fuel);
        assert(rooted(p, n, i, fuel));
    }
}

proof fn lemma_worlds_agree_at<M, F: Fn(M, M) -> M>(
    locals: Seq<M>,
    p: Seq<Option<usize>>,
    q: Seq<Option<usize>>,
    compose: F,
    a: Seq<M>,
    b: Seq<M>,
    i: int,
    fuel: nat,
)
    requires
        deterministic(compose),
        same_links(p, q, locals.len()),
        is_world(locals, p, compose, a),
        is_world(locals, q, compose, b),
        0 <= i < locals.len(),
        rooted(p, locals.len(), i, fuel),
    ensures
        a[i] == b[i],
    decreases fuel,
{
    lemma_same_links_resolve(p, q, locals.len(), i);
    assert(resolves(p, locals.len(), i));
    match (parent_of(p, i), parent_of(q, i)) {
        (Some(u), Some(v)) => {
            assert(u == v && u < locals.len());
            lemma_worlds_agree_at(locals, p, q, compose, a, b, u as int, (fuel - 1) as nat);
            assert(call_ensures(compose, (a[u as int], locals[i]), a[i]));
            assert(call_ensures(compose, (b[u as int], locals[i]), b[i]));
        },
        _ => {
            assert(a[i] == locals[i]);
            assert(b[i] == locals[i]);
        },
    }
}

/// Nodes that are linked alike are placed alike, with a composition that always gives
/// the same product.
pub proof fn law_linked_alike_placed_alike<M, F: Fn(M, M) -> M>(
    locals: Seq<M>,
    p: Seq<Option<usize>>,
    q: Seq<Option<usize>>,
    compose: F,
    a: Seq<M>,
    b: Seq<M>,
)
    requires
        deterministic(compose),
        same_links(p, q, locals.len()),
        is_world(locals, p, compose, a),
        is_world(locals, q, compose, b),
    ensures
        a == b,
{
    assert forall|i: int| 0 <= i < locals.len() implies a[i] == b[i] by {
        if resolves(p, locals.len(), i) {
            let fuel = choose|fuel: nat| rooted(p, locals.len(), i, fuel);
            lemma_worlds_agree_at(locals, p, q, compose, a, b, i, fuel);
        } else {
            lemma_same_links_resolve(p, q, locals.len(), i);
            assert(a[i] == locals[i]);
            assert(b[i] == locals[i]);
        }
    }
    assert(a =~= b);
}

/// The world transforms are unique where the composition always gives the same product:
/// a second computation gives the same ones.
pub proof fn law_world_is_unique<M, F: Fn(M, M) -> M>(
    locals: Seq<M>,
    parents: Seq<Option<usize>>,
    compose: F,
    a: Seq<M>,
    b: Seq<M>,
)
    requires
        deterministic(compose),
        is_world(locals, parents, compose, a),
        is_world(locals, parents, compose, b),
    ensures
        a == b,
{
    law_linked_alike_placed_alike(locals, parents, parents, compose, a, b);
}

/// Whether a flat parent table stands for the parents of a column of entities: for each
/// the index of its parent, or one past the end where the parent is not in the column.
pub open spec fn stands_for<M>(
    table: Seq<Option<usize>>,
    locals: Seq<(u64, M)>,
    parents: Map<u64, u64>,
) -> bool {
    forall|i: int|
        0 <= i < locals.len() ==> match #[trigger] parent_of(table, i) {
            None => !parents.dom().contains(locals[i].0),
            Some(p) => parents.dom().contains(locals[i].0) && if p < locals.len() {
                locals[p as int].0 == parents[locals[i].0]
            } else {
                forall|j: int|
                    0 <= j < locals.len() ==> (#[trigger] locals[j]).0 != parents[locals[i].0]
            },
        }
}

/// The entity-keyed and the flat form agree: what [`propagate_transforms`] gives for a
/// column of entities is what [`compute_world_matrices`] gives for the same transforms
/// and a table that stands for the parents.
pub proof fn law_entity_form_agrees<M, F: Fn(M, M) -> M>(
    locals: Seq<(u64, M)>,
    parents: Map<u64, u64>,
    table: Seq<Option<usize>>,
    compose: F,
    propagated: Seq<M>,
    computed: Seq<M>,
)
    requires
        locals.len() <= usize::MAX,
        distinct_entities(locals),
        stands_for(table, locals, parents),
        deterministic(compose),
        is_world(transforms(locals), parent_table(locals, parents), compose, propagated),
        is_world(transforms(locals), table, compose, computed),
    ensures
        propagated == computed,
{
    let own = parent_table(locals, parents);
    assert forall|i: int| 0 <= i < locals.len() implies match (
        parent_of(own, i),
        #[trigger] parent_of(table, i),
    ) {
        (None, None) => true,
        (Some(a), Some(b)) => a == b || (a >= locals.len() && b >= locals.len()),
        _ => false,
    } by {
        assert(parent_of(own, i) == own[i]);
        match parent_of(table, i) {
            None => {},
            Some(p) => {
                let e = parents[locals[i].0];
                if p < locals.len() {
                    assert(locals[p as int].0 == e);
                    let j = choose|j: int| 0 <= j < locals.len() && (#[trigger] locals[j]).0 == e;
                    if j < p {
                        assert(locals[j].0 != locals[p as int].0);
                    }
                    if p < j {
                        assert(locals[p as int].0 != locals[j].0);
                    }
                }
            },
        }
    }
    law_linked_alike_placed_alike(transforms(locals), own, table, compose, propagated, computed);
}

/// A node in a cycle keeps its own transform, whatever the composition is.
pub proof fn law_cycle_keeps_local<M, F: Fn(M, M) -> M>(
    locals: Seq<M>,
    parents: Seq<Option<usize>>,
    compose: F,
    world: Seq<M>,
    i: int,
)
    requires
        is_world(locals, parents, compose, world),
        0 <= i < locals.len(),
        forall|fuel: nat| !rooted(parents, locals.len(), i, fuel),
    ensures
        world[i] == locals[i],
{
    let _ = world[i];
}

/// A root keeps its own transform.
pub proof fn law_root_keeps_local<M, F: Fn(M, M) -> M>(
    locals: Seq<M>,
    parents: Seq<Option<usize>>,
    compose: F,
    world: Seq<M>,
    i: int,
)
    requires
        is_world(locals, parents, compose, world),
        0 <= i < locals.len(),
        parent_of(parents, i) is None,
    ensures
        world[i] == locals[i],
{
    let _ = world[i];
}

/// A child of a root is placed by its parent's transform first and its own after it; and a
/// child of a node that hangs from a root by its parent's place first.
pub proof fn law_child_is_placed_by_its_parent<M, F: Fn(M, M) -> M>(
    locals: Seq<M>,
    parents: Seq<Option<usize>>,
    compose: F,
    world: Seq<M>,
    i: int,
    p: usize,
)
    requires
        is_world(locals, parents, compose, world),
        0 <= i < locals.len(),
        i < parents.len(),
        parents[i] == Some(p),
        p < locals.len(),
        resolves(parents, locals.len(), p as int),
    ensures
        call_ensures(compose, (world[p as int], locals[i]), world[i]),
        p >= parents.len() || parents[p as int] is None ==> call_ensures(
            compose,
            (locals[p as int], locals[i]),
            world[i],
        ),
{
    let fuel = choose|fuel: nat| rooted(parents, locals.len(), p as int, fuel);
    assert(rooted(parents, locals.len(), i, (fuel + 1) as nat));
    let own = world[i];
    let up = world[p as int];
}

/// A node hangs from a root exactly where it is one, or where its parent is in the table and
/// hangs from one.
pub proof fn law_hangs_from_a_root(parents: Seq<Option<usize>>, n: nat, i: int)
    requires
        0 <= i < parents.len(),
    ensures
        resolves(parents, n, i) <==> match parents[i] {
            None => true,
            Some(p) => p < n && resolves(parents, n, p as int),
        },
{
    match parents[i] {
        None => {
            assert(rooted(parents, n, i, 0));
        },
        Some(p) => {
            if resolves(parents, n, i) {
                let fuel = choose|fuel: nat| rooted(parents, n, i, fuel);
                assert(rooted(parents, n, p as int, (fuel - 1) as nat));
            }
            if p < n && resolves(parents, n, p as int) {
                let fuel = choose|fuel: nat| rooted(parents, n, p as int, fuel);
                assert(rooted(parents, n, i, (fuel + 1) as nat));
            }
        },
    }
}

/// An entity's parent in the table is the entity that it names; one that names an entity that
/// is not in the column stands under none of the column's.
pub proof fn law_table_links_named_parents<M>(
    locals: Seq<(u64, M)>,
    parents: Map<u64, u64>,
    i: int,
    j: int,
)
    requires
        distinct_entities(locals),
        locals.len() < usize::MAX,
        0 <= i < locals.len(),
        0 <= j < locals.len(),
    ensures
        parent_table(locals, parents).len() == locals.len(),
        parent_table(locals, parents)[i] == Some(j as usize) <==> parents.dom().contains(
            locals[i].0,
        ) && parents[locals[i].0] == locals[j].0,
        parent_table(locals, parents)[i] is None <==> !parents.dom().contains(locals[i].0),
        transforms(locals)[i] == locals[i].1,
{
    if parents.dom().contains(locals[i].0) {
        let e = parents[locals[i].0];
        if exists|k: int| 0 <= k < locals.len() && (#[trigger] locals[k]).0 == e {
            let k = choose|k: int| 0 <= k < locals.len() && (#[trigger] locals[k]).0 == e;
            if locals[j].0 == e {
                assert(k == j) by {
                    if k < j {
                        assert(locals[k].0 != locals[j].0);
                    }
                    if j < k {
                        assert(locals[j].0 != locals[k].0);
                    }
                }
            }
        }
    }
}

} // verus!
