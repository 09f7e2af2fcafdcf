use concinnity_gfx::draw_slot::{DrawSlotAllocator, SlotAlloc};
use concinnity_gfx::float_bits::{FloatBits, Mat4};
use concinnity_gfx::spawn::{
    DueSpawn, EntityStore, MeshRenderer, Pose, ReparentRequest, SpawnKind, Spawner, Transform,
    despawn_targets, reparent_targets, spawn_target, tick_lifetimes, tick_spawners,
};
use std::collections::HashMap;

fn bits(x: f32) -> FloatBits {
    FloatBits::new(x.to_bits())
}

fn num(x: FloatBits) -> f32 {
    f32::from_bits(x.bits)
}

fn transform() -> Transform {
    Transform { position: [bits(0.0); 3], rotation: [bits(0.0); 3], scale: [bits(1.0); 3] }
}

fn model() -> Mat4 {
    [[bits(0.0); 4]; 4]
}

fn minus(a: FloatBits, b: FloatBits) -> FloatBits {
    bits(num(a) - num(b))
}

fn plus(a: FloatBits, b: FloatBits) -> FloatBits {
    bits(num(a) + num(b))
}

// A clone_slot seam backed by a DrawSlotAllocator: it pops a vacated slot
// before growing, exactly like the backend's clone_static_draw_object does
// against its real draw_objects vec.
fn alloc_slot(alloc: &mut DrawSlotAllocator) -> usize {
    match alloc.allocate() {
        SlotAlloc::Reuse(slot) => slot,
        SlotAlloc::Append(idx) => idx,
    }
}

fn spawn(
    store: &mut EntityStore,
    template: u64,
    name: Option<u32>,
    lifetime: Option<f32>,
    alloc: &mut DrawSlotAllocator,
) -> Option<u64> {
    let sources = store.slots_to_clone(template)?;
    let clones: Vec<Option<usize>> = sources.iter().map(|_| Some(alloc_slot(alloc))).collect();
    store.spawn_from_template(template, name, transform(), model(), lifetime.map(bits), &clones)
}

fn template(store: &mut EntityStore) -> u64 {
    let e = store.next;
    store.next += 1;
    store.transforms.insert(e, transform());
    store.handles.insert(e, vec![0]);
    e
}

#[test]
fn freed_draw_slot_is_reused_by_the_next_spawn() {
    let mut store = EntityStore::new(true);

    // A template placement occupying draw slot 0.
    let template = template(&mut store);
    store.mesh_renderers.insert(
        template,
        MeshRenderer { mesh: None, material: None, texture: None, cull_distance: bits(0.0) },
    );

    // The backend starts with one live slot (the template's).
    let mut alloc = DrawSlotAllocator::with_len(1);

    // First spawn appends a fresh slot past the template's.
    let first =
        spawn(&mut store, template, Some(1), Some(0.5), &mut alloc).expect("first spawn");
    let first_slot = store.handles[&first].clone();
    assert_eq!(first_slot, vec![1], "first spawn appended slot 1");

    // Its Lifetime expires; the expiry frees the slot like a despawn's
    // retire -> free does, then despawns the entity.
    let expired = tick_lifetimes(&mut store.lifetimes, bits(1.0), &minus);
    assert_eq!(expired, vec![first], "the short-lived spawn expired");
    let freed: Vec<u32> = store.handles[&first].clone();
    for slot in &freed {
        alloc.free(*slot as usize);
    }
    store.handles.remove(&first);
    assert!(store.handles.get(&first).is_none(), "first despawned");

    // The next spawn reuses the freed slot instead of growing the vec.
    let second = spawn(&mut store, template, Some(2), None, &mut alloc).expect("second spawn");
    let second_slot = store.handles[&second].clone();
    assert_eq!(
        second_slot, freed,
        "the freed draw slot must be recycled by the next spawn"
    );
}

#[test]
fn skinned_spawn_claims_and_recycles_a_pooled_slot() {
    let mut store = EntityStore::new(true);

    // A skinned template at draw slot 0 with two pre-reserved hidden
    // copies (slots 1 and 2) in the pool.
    let template = store.next;
    store.next += 1;
    store.poses.insert(template, Pose { mesh_id: 10, skinned_index: 0, skeleton: 7 });
    let mut pool = vec![2usize, 1];

    // The spawn claims a pooled copy and the new entity points at it.
    let claimed = pool.pop();
    let first = store
        .spawn_skinned_from_template(template, Some(11), transform(), Some(bits(0.5)), claimed)
        .expect("first skinned spawn");
    let first_slot = store.poses[&first].skinned_index;
    assert_eq!(
        store.poses[&first].mesh_id, 10,
        "the instance shares the template's mesh id so it animates with it"
    );
    assert_eq!(store.poses[&first].skeleton, 7, "and the template's skeleton");

    // Its Lifetime expires; the expiry releases the slot to the pool like
    // a despawn's retire does, then despawns the entity.
    let expired = tick_lifetimes(&mut store.lifetimes, bits(1.0), &minus);
    assert_eq!(expired, vec![first]);
    pool.push(first_slot);
    store.poses.remove(&first);

    // The next spawn recycles the freed slot instead of a fresh one.
    let claimed = pool.pop();
    let second = store
        .spawn_skinned_from_template(template, None, transform(), None, claimed)
        .expect("second skinned spawn");
    assert_eq!(
        store.poses[&second].skinned_index, first_slot,
        "the freed skinned slot must be recycled by the next spawn"
    );
}

#[test]
fn skinned_spawn_with_exhausted_pool_returns_none() {
    let mut store = EntityStore::new(false);
    let template = store.next;
    store.next += 1;
    store.poses.insert(template, Pose { mesh_id: 10, skinned_index: 0, skeleton: 7 });
    // A template that reserved no instances has nothing to claim.
    let mut pool: Vec<usize> = Vec::new();
    let spawned =
        store.spawn_skinned_from_template(template, None, transform(), None, pool.pop());
    assert!(spawned.is_none(), "an exhausted pool drops the spawn");
}

#[test]
fn spawn_registers_the_instance_by_name() {
    let mut store = EntityStore::new(true);
    let template = template(&mut store);
    let mut alloc = DrawSlotAllocator::with_len(1);

    let spawned = spawn(&mut store, template, Some(42), None, &mut alloc).expect("spawn");

    let by_name = store.names.as_ref().unwrap();
    assert_eq!(by_name.get(&42), Some(&spawned));
}

fn spawner(interval: f32, lifetime: f32, position: [f32; 3]) -> Spawner {
    Spawner {
        template: 7,
        interval: bits(interval),
        lifetime: bits(lifetime),
        transform: Transform { position: position.map(bits), ..transform() },
        elapsed: bits(0.0),
        count: 0,
    }
}

fn tick(spawners: &mut Vec<Spawner>, dt: f32) -> Vec<DueSpawn> {
    tick_spawners(spawners, bits(dt), &plus, &minus)
}

#[test]
fn spawner_emits_one_copy_per_interval_elapsed() {
    let mut spawners = vec![spawner(1.0, 2.0, [1.0, 2.0, 3.0])];

    // Below the interval: nothing due, but the clock advances.
    assert!(tick(&mut spawners, 0.5).is_empty());
    // Crossing the interval emits one, carrying the lifetime + template
    // and the spawner's own position.
    let due = tick(&mut spawners, 0.6);
    assert_eq!(due.len(), 1);
    assert_eq!(due[0].template, 7);
    assert_eq!(due[0].lifetime.map(num), Some(2.0));
    assert_eq!(due[0].transform.position.map(num), [1.0, 2.0, 3.0]);
    // A long frame crossing several intervals catches up.
    assert_eq!(tick(&mut spawners, 2.5).len(), 2);
    assert_eq!(spawners[0].count, 3);
}

#[test]
fn spawner_with_nonpositive_interval_is_inert() {
    let mut spawners = vec![spawner(0.0, 0.0, [0.0; 3])];
    assert!(tick(&mut spawners, 100.0).is_empty());
    assert_eq!(num(spawners[0].elapsed), 0.0);
}

#[test]
fn tick_only_expires_elapsed_lifetimes() {
    let (short, long) = (0u64, 1u64);
    let mut lifetimes = vec![(short, bits(0.1)), (long, bits(5.0))];

    let expired = tick_lifetimes(&mut lifetimes, bits(0.2), &minus);
    assert_eq!(expired, vec![short], "only the short lifetime expired");
    // The survivor's clock advanced but it is still alive.
    assert_eq!(num(lifetimes[1].1), 4.8);
}

#[test]
fn a_spawner_without_a_lifetime_emits_lasting_copies() {
    let mut spawners = vec![spawner(0.5, 0.0, [0.0; 3]), spawner(-1.0, 1.0, [0.0; 3])];
    let due = tick(&mut spawners, 1.0);
    assert_eq!(due.len(), 2);
    assert!(due[0].lifetime.is_none());
    assert_eq!((spawners[0].count, spawners[1].count), (2, 0));
}

// A copy can itself be copied.
#[test]
fn a_copy_serves_as_a_template() {
    let mut store = EntityStore::new(false);
    let template = template(&mut store);
    let mut alloc = DrawSlotAllocator::with_len(1);
    let copy = spawn(&mut store, template, None, None, &mut alloc).unwrap();
    let again = spawn(&mut store, copy, None, None, &mut alloc).unwrap();
    assert_eq!(store.handles[&again], vec![2]);
    // What is not drawn is no template.
    assert!(store.slots_to_clone(999).is_none());
}

#[test]
fn requests_find_their_entities_by_name() {
    let by_name = HashMap::from([(1u32, 10u64), (2, 20)]);
    assert_eq!(despawn_targets(&vec![2, 9, 1], &by_name), vec![20, 10]);
    let reqs = vec![
        ReparentRequest { child: 1, parent: Some(2) },
        ReparentRequest { child: 2, parent: None },
        // A parent that is not found leaves the child where it is.
        ReparentRequest { child: 1, parent: Some(9) },
        ReparentRequest { child: 9, parent: None },
    ];
    assert_eq!(reparent_targets(&reqs, &by_name), vec![(10, Some(20)), (20, None)]);
    let poses = HashMap::from([(20u64, Pose { mesh_id: 1, skinned_index: 0, skeleton: 0 })]);
    assert_eq!(spawn_target(1, &by_name, &poses), Some((10, SpawnKind::Static)));
    assert_eq!(spawn_target(2, &by_name, &poses), Some((20, SpawnKind::Skinned)));
    assert_eq!(spawn_target(9, &by_name, &poses), None);
}
