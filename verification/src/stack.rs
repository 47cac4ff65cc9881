//! A stack of numbers with a fixed number of slots.

use vstd::array::array_fill_for_copy_types;
use vstd::prelude::*;

verus! {

/// A stack of 255 numbers, each held by the bits of a double. The top is at
/// position 0; the slots that were never pushed to hold zero.
pub struct Stack {
    pub items: [u64; 255],
}

impl Stack {
    /// A stack of zeros.
    pub fn new() -> (r: Self)
        ensures
            forall|i: int| 0 <= i < 255 ==> r.items@[i] == 0,
    {
        Self { items: array_fill_for_copy_types(0u64) }
    }

    /// Pushes `num`: every number moves one slot down, and the one in the
    /// last slot is lost. The stack itself is handed back.
    pub fn push(&mut self, num: u64) -> (r: &Self)
        ensures
            final(self).items@ == seq![num] + old(self).items@.take(254),
            r.items@ == final(self).items@,
    {
        let mut i: usize = 254;
        while i > 0
            invariant
                i <= 254,
                forall|j: int| 0 <= j <= i ==> self.items@[j] == old(self).items@[j],
                forall|j: int| i < j < 255 ==> self.items@[j] == old(self).items@[j - 1],
            decreases i,
        {
            let below: u64 = self.items[i - 1];
            self.items[i] = below;
            i -= 1;
        }
        self.items[0] = num;
        assert(self.items@ =~= seq![num] + old(self).items@.take(254));
        self
    }

    /// Takes the top away: every number moves one slot up, and the last slot
    /// holds zero.
    pub fn pop(&mut self) -> (r: u64)
        ensures
            r == old(self).items@[0],
            final(self).items@ == old(self).items@.skip(1).push(0),
    {
        let top: u64 = self.items[0];
        let mut i: usize = 0;
        while i < 254
            invariant
                i <= 254,
                forall|j: int| 0 <= j < i ==> self.items@[j] == old(self).items@[j + 1],
                forall|j: int| i <= j < 255 ==> self.items@[j] == old(self).items@[j],
            decreases 254 - i,
        {
            let above: u64 = self.items[i + 1];
            self.items[i] = above;
            i += 1;
        }
        self.items[254] = 0;
        assert(self.items@ =~= old(self).items@.skip(1).push(0));
        top
    }
}

} // verus!
