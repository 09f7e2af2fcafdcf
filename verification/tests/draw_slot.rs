use concinnity_gfx::draw_slot::{DrawSlotAllocator, SlotAlloc};

#[test]
fn appends_past_initial_len_then_reuses_freed_slots() {
    let mut alloc = DrawSlotAllocator::with_len(3);
    // No free slots yet: allocation appends past the initial three.
    assert_eq!(alloc.allocate(), SlotAlloc::Append(3));
    assert_eq!(alloc.allocate(), SlotAlloc::Append(4));

    // Freeing a slot makes the next allocation reuse it instead of growing.
    alloc.free(3);
    assert_eq!(alloc.allocate(), SlotAlloc::Reuse(3));

    // The reuse did not advance the high-water mark: with the free list
    // empty again, allocation resumes appending at 5 (not 6).
    assert_eq!(alloc.allocate(), SlotAlloc::Append(5));
}

#[test]
fn freed_slots_pop_in_lifo_order() {
    let mut alloc = DrawSlotAllocator::with_len(10);
    alloc.free(4);
    alloc.free(7);
    assert_eq!(alloc.allocate(), SlotAlloc::Reuse(7));
    assert_eq!(alloc.allocate(), SlotAlloc::Reuse(4));
    assert_eq!(alloc.allocate(), SlotAlloc::Append(10));
}
