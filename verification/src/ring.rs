//! A ring of the most recent samples: once it is full, each new sample
//! takes the place of the oldest one.

use vstd::prelude::*;

verus! {

/// The samples that remain of `samples` when only the last `capacity` are kept.
pub open spec fn keep_last(samples: Seq<u32>, capacity: nat) -> Seq<u32> {
    if samples.len() <= capacity {
        samples
    } else {
        samples.subrange(samples.len() - capacity, samples.len() as int)
    }
}

/// A fixed number of slots that hold the most recent samples.
///
/// The view is the sequence of samples still held, oldest first.
pub struct Ring {
    slots: Vec<u32>,
    start: usize,
    count: usize,
}

impl View for Ring {
    type V = Seq<u32>;

    closed spec fn view(&self) -> Seq<u32> {
        Seq::new(self.count as nat, |i: int| self.slots@[self.slot_of(i)])
    }
}

impl Ring {
    /// The slot in which the sample of rank `i` (0 is the oldest) lies.
    closed spec fn slot_of(&self, i: int) -> int {
        if self.start + i < self.slots@.len() {
            self.start + i
        } else {
            self.start + i - self.slots@.len()
        }
    }

    /// The number of samples the ring can hold.
    pub closed spec fn spec_capacity(&self) -> nat {
        self.slots@.len()
    }

    /// The invariant of the representation: the samples lie in consecutive
    /// slots (wrapping at the end), and until the ring is full they start
    /// at the first slot.
    pub closed spec fn wf(&self) -> bool {
        &&& self.count <= self.slots@.len()
        &&& self.start < self.slots@.len() || (self.start == 0 && self.slots@.len() == 0)
        &&& self.count < self.slots@.len() ==> self.start == 0
    }

    /// A well-formed ring never holds more samples than it has slots.
    pub proof fn lemma_len_bounded(&self)
        requires
            self.wf(),
        ensures
            self@.len() <= self.spec_capacity(),
    {
    }

    /// An empty ring with `size` slots.
    pub fn new(size: usize) -> (ring: Ring)
        ensures
            ring.wf(),
            ring@ == Seq::<u32>::empty(),
            ring.spec_capacity() == size,
    {
        let mut slots: Vec<u32> = Vec::new();
        let mut i: usize = 0;
        while i < size
            invariant
                i <= size,
                slots@.len() == i,
            decreases size - i,
        {
            slots.push(0);
            i = i + 1;
        }
        let ring = Ring { slots, start: 0, count: 0 };
        assert(ring@ =~= Seq::<u32>::empty());
        ring
    }

    /// The number of slots.
    pub fn capacity(&self) -> (n: usize)
        ensures
            n == self.spec_capacity(),
    {
        self.slots.len()
    }

    /// The number of samples held.
    pub fn len(&self) -> (n: usize)
        ensures
            n == self@.len(),
    {
        self.count
    }

    /// Whether every slot holds a sample.
    pub fn is_full(&self) -> (full: bool)
        requires
            self.wf(),
        ensures
            full == (self@.len() == self.spec_capacity()),
    {
        self.count == self.slots.len()
    }

    /// Records `value` as the newest sample. A full ring gives up its
    /// oldest sample for it; a ring without slots stays empty.
    pub fn push(&mut self, value: u32)
        requires
            old(self).wf(),
        ensures
            final(self).wf(),
            final(self).spec_capacity() == old(self).spec_capacity(),
            final(self)@ == keep_last(old(self)@.push(value), old(self).spec_capacity()),
    {
        let cap = self.slots.len();
        if cap == 0 {
            assert(self@ =~= keep_last(old(self)@.push(value), 0));
        } else if self.count < cap {
            let at = self.count;
            self.slots[at] = value;
            self.count = at + 1;
            assert(self@ =~= old(self)@.push(value));
        } else {
            let at = self.start;
            self.slots[at] = value;
            self.start = if at + 1 == cap { 0 } else { at + 1 };
            assert(self@ =~= old(self)@.push(value).subrange(1, cap + 1)) by {
                assert forall|i: int| 0 <= i < cap implies self@[i] == old(self)@.push(
                    value,
                )[i + 1] by {
                    if i + 1 < cap {
                        assert(self.slot_of(i) == old(self).slot_of(i + 1));
                    } else {
                        assert(self.slot_of(i) == at);
                    }
                }
            }
        }
    }

    /// The newest sample.
    pub fn head(&self) -> (value: u32)
        requires
            self.wf(),
            self@.len() > 0,
        ensures
            value == self@.last(),
    {
        let cap = self.slots.len();
        let last = self.count - 1;
        let at = if last < cap - self.start { self.start + last } else { last - (cap - self.start) };
        assert(at == self.slot_of(last as int));
        self.slots[at]
    }

    /// The oldest sample.
    pub fn tail(&self) -> (value: u32)
        requires
            self.wf(),
            self@.len() > 0,
        ensures
            value == self@.first(),
    {
        assert(self.slot_of(0) == self.start);
        self.slots[self.start]
    }
}

} // verus!
