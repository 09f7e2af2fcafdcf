use concinnity_gfx::despawn::{collect_subtree, despawn_collected};
use std::collections::HashMap;

#[test]
fn collect_subtree_gathers_root_and_descendants() {
    // root -> {a, b}; a -> {c}. A four-entity tree.
    let (root, a, b, c) = (0u64, 1, 2, 3);
    let children = HashMap::from([(root, vec![a, b]), (a, vec![c])]);

    let mut got = collect_subtree(&children, root);
    got.sort();
    let mut want = vec![root, a, b, c];
    want.sort();
    assert_eq!(got, want);
}

#[test]
fn collect_subtree_of_a_leaf_is_just_itself() {
    let lone = 0u64;
    assert_eq!(collect_subtree(&HashMap::new(), lone), vec![lone]);
}

#[test]
fn despawn_cascade_removes_subtree_and_retires_its_slots() {
    // A parent with two render slots and one child with one slot.
    let (parent, child) = (0u64, 1u64);
    // An unrelated entity that must survive the cascade.
    let other = 2u64;
    let mut children = HashMap::from([(parent, vec![child])]);
    let mut handles = HashMap::from([
        (parent, vec![10u32, 11]),
        (child, vec![12]),
        (other, vec![99]),
    ]);

    let done = despawn_collected(&mut children, &mut handles, parent);

    assert_eq!(done.entities.len(), 2, "parent + child removed");
    let mut retired = done.retired.clone();
    retired.sort_unstable();
    assert_eq!(
        retired,
        vec![10, 11, 12],
        "every slot in the subtree retired"
    );

    // The subtree is gone; the unrelated entity and its slot survive.
    assert!(done.entities.contains(&parent));
    assert!(done.entities.contains(&child));
    assert!(!handles.contains_key(&child));
    assert_eq!(handles.len(), 1, "only `other` remains");
    assert_eq!(handles[&other], vec![99]);
}

#[test]
fn despawn_an_entity_without_a_render_handle_retires_nothing() {
    let e = 5u64;
    let done = despawn_collected(&mut HashMap::new(), &mut HashMap::new(), e);
    assert_eq!(done.entities.len(), 1);
    assert!(done.retired.is_empty(), "no slots to retire");
    assert_eq!(done.entities, vec![e], "entity despawned");
}

// A cycle of children is walked once round.
#[test]
fn a_cycle_of_children_is_despawned_once() {
    let mut children = HashMap::from([(1u64, vec![2u64]), (2, vec![3]), (3, vec![1])]);
    let mut handles = HashMap::from([(1u64, vec![4u32]), (2, vec![5]), (3, vec![6])]);
    let done = despawn_collected(&mut children, &mut handles, 1);
    let mut entities = done.entities.clone();
    entities.sort();
    assert_eq!(entities, vec![1, 2, 3]);
    let mut retired = done.retired.clone();
    retired.sort();
    assert_eq!(retired, vec![4, 5, 6]);
}
