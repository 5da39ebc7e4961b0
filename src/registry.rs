use vstd::prelude::*;

use crate::error::StakingError;

verus! {

/// `s` with its element at `i` replaced by its last element, then shortened by
/// one: removal that keeps the live range contiguous but not ordered.
pub open spec fn swap_remove<T>(s: Seq<T>, i: int) -> Seq<T> {
    s.update(i, s.last()).drop_last()
}

/// A collection of at most a fixed number of entries, stored in slots that are
/// allocated once. Only the first `count` slots are live.
pub struct BoundedRegistry<T> {
    slots: Vec<T>,
    count: usize,
}

impl<T: Copy> BoundedRegistry<T> {
    /// The live entries, in slot order.
    pub closed spec fn view(&self) -> Seq<T> {
        self.slots@.subrange(0, self.count as int)
    }

    /// The fixed number of slots.
    pub closed spec fn spec_capacity(&self) -> nat {
        self.slots@.len()
    }

    pub closed spec fn wf(&self) -> bool {
        self.count <= self.slots@.len()
    }

    /// Live entries never outnumber the slots.
    pub proof fn lemma_len_bounded(&self)
        requires
            self.wf(),
        ensures
            self.view().len() <= self.spec_capacity(),
    {
    }

    /// A registry of `capacity` slots, none of them live; `filler` fills the slots.
    pub fn new(capacity: usize, filler: T) -> (r: Self)
        ensures
            r.wf(),
            r.view() == Seq::<T>::empty(),
            r.spec_capacity() == capacity,
    {
        let mut slots: Vec<T> = Vec::new();
        let mut i: usize = 0;
        while i < capacity
            invariant
                i <= capacity,
                slots@.len() == i,
            decreases capacity - i,
        {
            slots.push(filler);
            i = i + 1;
        }
        let r = BoundedRegistry { slots, count: 0 };
        assert(r.view() =~= Seq::<T>::empty());
        r
    }

    /// Number of live entries.
    pub fn len(&self) -> (r: usize)
        requires
            self.wf(),
        ensures
            r == self.view().len(),
    {
        self.count
    }

    /// Number of slots.
    pub fn capacity(&self) -> (r: usize)
        ensures
            r == self.spec_capacity(),
    {
        self.slots.len()
    }

    /// The live entry at `index`.
    pub fn get(&self, index: usize) -> (r: T)
        requires
            self.wf(),
            index < self.view().len(),
        ensures
            r == self.view()[index as int],
    {
        self.slots[index]
    }

    /// Writes `item` into the first free slot, or fails when every slot is live.
    pub fn append(&mut self, item: T) -> (r: Result<(), StakingError>)
        requires
            old(self).wf(),
        ensures
            final(self).wf(),
            final(self).spec_capacity() == old(self).spec_capacity(),
            final(self).view().len() <= final(self).spec_capacity(),
            old(self).view().len() < old(self).spec_capacity() ==> r == Ok::<(), StakingError>(())
                && final(self).view() == old(self).view().push(item),
            old(self).view().len() >= old(self).spec_capacity() ==> r == Err::<(), StakingError>(
                StakingError::CapacityExceeded,
            ) && *final(self) == *old(self),
    {
        if self.count == self.slots.len() {
            return Err(StakingError::CapacityExceeded);
        }
        let ghost before = self.view();
        self.slots.set(self.count, item);
        self.count = self.count + 1;
        assert(self.view() =~= before.push(item));
        Ok(())
    }

    /// Removes and returns the live entry at `index`; the last live entry takes
    /// its slot.
    pub fn remove_at(&mut self, index: usize) -> (r: Result<T, StakingError>)
        requires
            old(self).wf(),
        ensures
            final(self).wf(),
            final(self).spec_capacity() == old(self).spec_capacity(),
            index < old(self).view().len() ==> r == Ok::<T, StakingError>(old(self).view()[index as int])
                && final(self).view() == swap_remove(old(self).view(), index as int),
            index >= old(self).view().len() ==> r == Err::<T, StakingError>(
                StakingError::IndexOutOfRange,
            ) && *final(self) == *old(self),
    {
        if index >= self.count {
            return Err(StakingError::IndexOutOfRange);
        }
        let ghost before = self.view();
        let removed = self.slots[index];
        let last = self.count - 1;
        if index != last {
            let moved = self.slots[last];
            self.slots.set(index, moved);
        }
        self.count = last;
        assert(self.view() =~= swap_remove(before, index as int));
        Ok(removed)
    }
}

/// Removing the last live entry leaves every other entry where it was.
pub proof fn lemma_remove_last_keeps_others<T>(s: Seq<T>)
    requires
        s.len() > 0,
    ensures
        swap_remove(s, s.len() - 1) == s.drop_last(),
        forall|j: int| 0 <= j < s.len() - 1 ==> #[trigger] swap_remove(s, s.len() - 1)[j] == s[j],
{
    assert(swap_remove(s, s.len() - 1) =~= s.drop_last());
}

} // verus!
