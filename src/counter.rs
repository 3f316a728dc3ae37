use vstd::prelude::*;

verus! {

/// A counter that goes up by seven per press and falls back to zero when it
/// reaches a multiple of twelve.
pub struct Counter {
    value: u64,
}

impl Counter {
    /// The count.
    pub closed spec fn count(&self) -> u64 {
        self.value
    }

    /// The counts a counter can reach from zero: multiples of seven below
    /// eighty-four (the first nonzero multiple of both seven and twelve).
    pub open spec fn wf(&self) -> bool {
        self.count() % 7 == 0 && self.count() < 84
    }

    /// A counter at zero.
    pub fn new() -> (r: Counter)
        ensures
            r.count() == 0,
            r.wf(),
    {
        Counter { value: 0 }
    }

    /// The count.
    pub fn value(&self) -> (r: u64)
        ensures
            r == self.count(),
    {
        self.value
    }

    /// One press: add seven, then go back to zero if the count is a multiple
    /// of twelve.
    pub fn press(&mut self)
        requires
            old(self).wf(),
        ensures
            final(self).wf(),
            final(self).count() == (if (old(self).count() + 7) % 12 == 0 {
                0
            } else {
                old(self).count() + 7
            }),
    {
        self.value = self.value + 7;
        if self.value % 12 == 0 {
            self.value = 0;
        }
    }
}

} // verus!
