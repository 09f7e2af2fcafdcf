//! Free-list allocator for backend draw-object slots.
//!
//! A backend appends draw objects into one list and stores raw indices into it
//! on each entity, so a vacated slot cannot be compacted away. The allocator
//! hands out a vacated slot, last freed first, before it grows the list.

use vstd::prelude::*;

verus! {

/// What [`DrawSlotAllocator::allocate`] hands out.
#[derive(Debug, Clone, Copy, PartialEq, Eq, Structural)]
pub enum SlotAlloc {
    /// Overwrite the existing entry at this vacated slot.
    Reuse(usize),
    /// No slot was free: append at this index, the prior length.
    Append(usize),
}

/// The vacated slots, in the order in which they were freed, and the number of
/// slots ever handed out.
#[derive(Debug)]
pub struct DrawSlotAllocator {
    free: Vec<usize>,
    len: usize,
}

impl DrawSlotAllocator {
    /// The vacated slots, the last freed one last.
    pub closed spec fn free_slots(&self) -> Seq<usize> {
        self.free@
    }

    /// The high-water mark: the number of slots that exist.
    pub closed spec fn slots(&self) -> nat {
        self.len as nat
    }

    /// Whether a slot is in use: it exists and has not been vacated.
    pub open spec fn live(&self, slot: usize) -> bool {
        slot < self.slots() && !self.free_slots().contains(slot)
    }

    /// Every vacated slot exists and was vacated once.
    pub open spec fn wf(&self) -> bool {
        &&& self.free_slots().no_duplicates()
        &&& forall|i: int|
            0 <= i < self.free_slots().len() ==> #[trigger] self.free_slots()[i] < self.slots()
    }

    /// Start with `len` slots already in use.
    pub fn with_len(len: usize) -> (r: Self)
        ensures
            r.free_slots() == Seq::<usize>::empty(),
            r.slots() == len,
            r.wf(),
    {
        DrawSlotAllocator { free: Vec::new(), len }
    }

    /// Hand out the slot freed last, or else the next new index.
    pub fn allocate(&mut self) -> (r: SlotAlloc)
        requires
            old(self).free_slots().len() > 0 || old(self).slots() < usize::MAX,
        ensures
            old(self).free_slots().len() > 0 ==> {
                &&& r == SlotAlloc::Reuse(old(self).free_slots().last())
                &&& final(self).free_slots() == old(self).free_slots().drop_last()
                &&& final(self).slots() == old(self).slots()
            },
            old(self).free_slots().len() == 0 ==> {
                &&& r == SlotAlloc::Append(old(self).slots() as usize)
                &&& final(self).free_slots() == old(self).free_slots()
                &&& final(self).slots() == old(self).slots() + 1
            },
            old(self).wf() ==> final(self).wf(),
    {
        let ghost was = self.free@;
        match self.free.pop() {
            Some(slot) => {
                assert(self.free@ =~= was.drop_last());
                SlotAlloc::Reuse(slot)
            },
            None => {
                let idx: usize = self.len;
                self.len = self.len + 1;
                SlotAlloc::Append(idx)
            },
        }
    }

    /// Return a slot to the free list, to be the next one handed out.
    pub fn free(&mut self, slot: usize)
        ensures
            final(self).free_slots() == old(self).free_slots().push(slot),
            final(self).slots() == old(self).slots(),
            old(self).wf() && old(self).live(slot) ==> final(self).wf(),
    {
        self.free.push(slot);
    }
}

impl Default for DrawSlotAllocator {
    fn default() -> (r: Self)
        ensures
            r.free_slots() == Seq::<usize>::empty(),
            r.slots() == 0,
    {
        DrawSlotAllocator { free: Vec::new(), len: 0 }
    }
}

/// The slot in a [`SlotAlloc`].
pub open spec fn slot_of(a: SlotAlloc) -> usize {
    match a {
        SlotAlloc::Reuse(s) => s,
        SlotAlloc::Append(s) => s,
    }
}

/// The step that [`DrawSlotAllocator::allocate`] takes on the free list and the
/// high-water mark.
pub open spec fn allocation(free: Seq<usize>, slots: nat) -> (SlotAlloc, Seq<usize>, nat) {
    if free.len() > 0 {
        (SlotAlloc::Reuse(free.last()), free.drop_last(), slots)
    } else {
        (SlotAlloc::Append(slots as usize), free, slots + 1)
    }
}

/// A slot is never handed out while it is in use: what `allocate` returns was
/// not live before, is live after, and no other slot changes.
pub proof fn law_allocate_is_fresh(before: DrawSlotAllocator, after: DrawSlotAllocator, r: SlotAlloc)
    requires
        before.wf(),
        before.slots() < usize::MAX,
        (r, after.free_slots(), after.slots()) == allocation(before.free_slots(), before.slots()),
    ensures
        !before.live(slot_of(r)),
        after.live(slot_of(r)),
        forall|s: usize| s != slot_of(r) ==> (#[trigger] after.live(s) <==> before.live(s)),
{
    let free = before.free_slots();
    if free.len() > 0 {
        let last = free.last();
        assert(free.contains(last));
        assert forall|s: usize| s != last implies (#[trigger] after.live(s) <==> before.live(s)) by {
            if free.contains(s) {
                let i = choose|i: int| 0 <= i < free.len() && free[i] == s;
                assert(free.drop_last()[i] == s);
            }
            if free.drop_last().contains(s) {
                let i = choose|i: int| 0 <= i < free.len() - 1 && free.drop_last()[i] == s;
                assert(free[i] == s);
            }
        }
        if free.drop_last().contains(last) {
            let i = choose|i: int| 0 <= i < free.len() - 1 && free.drop_last()[i] == last;
            assert(free[i] == free[free.len() - 1]);
        }
    }
}

/// Steady churn does not leak slots: freeing a slot and then allocating hands
/// the same slot back and restores the allocator.
pub proof fn law_free_then_allocate_restores(free: Seq<usize>, slots: nat, slot: usize)
    ensures
        allocation(free.push(slot), slots) == (SlotAlloc::Reuse(slot), free, slots),
{
    assert(free.push(slot).drop_last() =~= free);
}

} // verus!
