use concinnity_gfx::chunk_coord::ChunkCoord;
use concinnity_gfx::chunk_window::{ChunkDetail, ChunkPlan, ChunkWindow};

fn cc(x: i32, z: i32) -> ChunkCoord {
    ChunkCoord::new(x, z)
}

// Coords in a plan's load list, detail dropped, for set-style assertions.
fn load_coords(plan: &ChunkPlan) -> Vec<ChunkCoord> {
    plan.to_load.iter().map(|(c, _)| *c).collect()
}

#[test]
fn plan_loads_nearest_in_window_chunks_within_budget() {
    // near=far=2 -> a 5x5 window of 25 chunks, impostors off; budget 4.
    let mut w = ChunkWindow::new(2, 2, 4);
    let plan = w.plan(cc(0, 0));
    assert!(plan.to_evict.is_empty());
    assert_eq!(plan.to_load.len(), 4);
    // The camera's own chunk is distance 0 -- it must be dispatched first.
    assert_eq!(plan.to_load[0], (cc(0, 0), ChunkDetail::Near));
    // Every dispatched chunk is within the load radius and full-detail.
    for (c, detail) in &plan.to_load {
        assert!(c.chebyshev_distance(cc(0, 0)) <= 2);
        assert_eq!(*detail, ChunkDetail::Near);
    }
}

#[test]
fn plan_does_not_redispatch_tracked_chunks() {
    let mut w = ChunkWindow::new(3, 3, 100);
    let first = w.plan(cc(0, 0));
    // A generous budget loads the whole 7x7 window at once.
    assert_eq!(first.to_load.len(), 49);
    // Nothing left to dispatch on the next frame at the same position.
    let second = w.plan(cc(0, 0));
    assert!(second.to_load.is_empty());
    assert!(second.to_evict.is_empty());
}

#[test]
fn plan_evicts_chunks_past_the_hysteresis_band() {
    let mut w = ChunkWindow::new(2, 2, 100);
    w.plan(cc(0, 0)); // load the 5x5 window around the origin
    // Move far enough that the origin chunk is past radius 2 + hysteresis 2.
    let plan = w.plan(cc(6, 0));
    assert!(plan.to_evict.contains(&cc(0, 0)));
}

#[test]
fn evicted_chunk_can_be_reloaded_after_returning() {
    let mut w = ChunkWindow::new(1, 1, 100);
    w.plan(cc(0, 0));
    w.plan(cc(20, 0)); // evicts the origin window entirely
    assert!(!w.is_tracked(cc(0, 0)));
    let plan = w.plan(cc(0, 0));
    assert!(load_coords(&plan).contains(&cc(0, 0)));
}

#[test]
fn mark_resident_promotes_a_pending_chunk() {
    let mut w = ChunkWindow::new(0, 0, 1);
    let plan = w.plan(cc(0, 0));
    assert_eq!(plan.to_load, vec![(cc(0, 0), ChunkDetail::Near)]);
    assert_eq!(w.counts(), (0, 1));
    w.mark_resident(cc(0, 0));
    assert_eq!(w.counts(), (1, 0));
}

#[test]
fn mark_resident_of_an_untracked_chunk_is_a_noop() {
    let mut w = ChunkWindow::new(0, 0, 1);
    w.mark_resident(cc(9, 9)); // never planned -- must not panic or insert
    assert_eq!(w.counts(), (0, 0));
    assert!(!w.is_tracked(cc(9, 9)));
}

#[test]
fn forget_lets_a_chunk_be_redispatched() {
    let mut w = ChunkWindow::new(0, 0, 1);
    w.plan(cc(0, 0));
    assert!(w.is_tracked(cc(0, 0)));
    w.forget(cc(0, 0));
    assert!(!w.is_tracked(cc(0, 0)));
    let plan = w.plan(cc(0, 0));
    assert_eq!(plan.to_load, vec![(cc(0, 0), ChunkDetail::Near)]);
}

#[test]
fn zero_radius_and_budget_are_floored() {
    // near floored to 0 (just the camera chunk), far to near, budget to 1.
    let mut w = ChunkWindow::new(-5, -5, 0);
    let plan = w.plan(cc(0, 0));
    assert_eq!(plan.to_load, vec![(cc(0, 0), ChunkDetail::Near)]);
}

#[test]
fn far_band_chunks_load_as_impostors() {
    // near 1, far 3: the 3x3 core is full detail, the surrounding rings are
    // impostors. A generous budget loads the whole 7x7 window at once.
    let mut w = ChunkWindow::new(1, 3, 100);
    let plan = w.plan(cc(0, 0));
    assert_eq!(plan.to_load.len(), 49);
    for (c, detail) in &plan.to_load {
        let d = c.chebyshev_distance(cc(0, 0));
        let expected = if d <= 1 {
            ChunkDetail::Near
        } else {
            ChunkDetail::Far
        };
        assert_eq!(*detail, expected, "chunk {:?} at distance {}", c, d);
    }
}

#[test]
fn crossing_the_boundary_redetails_a_chunk() {
    let mut w = ChunkWindow::new(1, 3, 100);
    // Load + resolve the whole window around the origin.
    let plan = w.plan(cc(0, 0));
    let crossing = cc(2, 0); // distance 2 -> Far impostor at the origin
    assert!(plan.to_load.contains(&(crossing, ChunkDetail::Far)));
    for (c, _) in plan.to_load.clone() {
        w.mark_resident(c);
    }
    let (near0, far0) = w.counts_by_detail();
    assert!(near0 > 0 && far0 > 0);

    // Step toward `crossing` so it falls inside near_radius: it must be
    // re-detailed (evicted) and re-dispatched as Near.
    let plan = w.plan(cc(1, 0));
    assert!(plan.to_evict.contains(&crossing));
    assert!(plan.to_load.contains(&(crossing, ChunkDetail::Near)));
}

#[test]
fn detail_hysteresis_holds_a_full_chunk_through_the_band() {
    // near 2, far 5. A chunk at the origin starts Near (camera at origin).
    let mut w = ChunkWindow::new(2, 5, 200);
    for (c, _) in w.plan(cc(0, 0)).to_load {
        w.mark_resident(c);
    }
    // Camera steps to (3,0): origin chunk is now chebyshev distance 3 =
    // near_radius(2) + hysteresis(1), so it stays Near, no re-detail.
    let plan = w.plan(cc(3, 0));
    assert!(!plan.to_evict.contains(&cc(0, 0)));
    // Step once more to (4,0): distance 4 > 2 + 1, so it downgrades to Far.
    let plan = w.plan(cc(4, 0));
    assert!(plan.to_evict.contains(&cc(0, 0)));
    assert!(plan.to_load.contains(&(cc(0, 0), ChunkDetail::Far)));
}

#[test]
fn equal_radii_disable_the_far_band() {
    // far == near -> every in-window chunk is Near, exactly as the original
    // single-detail window.
    let mut w = ChunkWindow::new(3, 3, 100);
    let plan = w.plan(cc(0, 0));
    assert!(plan.to_load.iter().all(|(_, d)| *d == ChunkDetail::Near));
    assert_eq!(w.counts_by_detail().1, 0); // never any far chunks
}

#[test]
fn equal_radii_retain_up_to_the_evict_radius() {
    let mut w = ChunkWindow::new(1, 1, 100);
    w.plan(cc(0, 0));
    // No tracked chunk is farther than the evict radius of 3.
    let plan = w.plan(cc(2, 0));
    assert!(plan.to_evict.is_empty());
    assert!(w.is_tracked(cc(-1, 0)));
    // One step more, and the column behind is past it.
    let plan = w.plan(cc(3, 0));
    assert_eq!(plan.to_evict, vec![cc(-1, -1), cc(-1, 0), cc(-1, 1)]);
    assert!(w.is_tracked(cc(0, 0)));
    assert_eq!(w.counts_by_detail().1, 0);
}

#[test]
fn a_plan_settles_while_loads_complete() {
    let mut w = ChunkWindow::new(1, 2, 100);
    let loads = w.plan(cc(4, -3)).to_load;
    for (c, _) in loads.iter().take(7) {
        w.mark_resident(*c);
    }
    let plan = w.plan(cc(4, -3));
    assert!(plan.to_load.is_empty() && plan.to_evict.is_empty());
    let (resident, pending) = w.counts();
    assert_eq!((resident, pending), (7, 18));
    let (near, far) = w.counts_by_detail();
    assert_eq!(near + far, resident);
}

#[test]
fn full_detail_stays_within_a_ring_past_the_near_radius() {
    let mut w = ChunkWindow::new(1, 3, 1000);
    for x in 0..6 {
        let plan = w.plan(ChunkCoord::new(x, 0));
        for (c, _) in plan.to_load {
            w.mark_resident(c);
        }
        // Three columns of three, and from the second place on the one left behind.
        let expected = if x == 0 { 9 } else { 12 };
        assert_eq!(w.counts_by_detail().0, expected);
    }
}
