//! Branch targets and their generator.

use vstd::prelude::*;

verus! {

/// A branch target. A label is defined by a `Label` pseudo-instruction and
/// referenced by jumps and switches.
#[derive(Clone, Copy, Debug, PartialEq, Eq, Structural, Hash)]
pub struct Label(pub u32);

/// Source of labels that are fresh within one function.
#[derive(Clone, Copy, Debug, PartialEq, Eq, Structural)]
pub struct Gen {
    /// The number of the next label to hand out.
    pub next: u32,
}

impl Gen {
    /// A generator that has handed out no label yet.
    pub fn new() -> (g: Gen)
        ensures
            g.next == 0,
    {
        Gen { next: 0 }
    }

    /// True when the label was handed out by this generator already.
    pub open spec fn issued(self, l: Label) -> bool {
        l.0 < self.next
    }

    /// The generator after `n` more labels were handed out.
    pub open spec fn advance(self, n: nat) -> Gen
        recommends
            self.next + n <= u32::MAX,
    {
        Gen { next: (self.next + n) as u32 }
    }

    /// Hands out the next label.
    pub fn next_regular(&mut self) -> (l: Label)
        requires
            old(self).next < u32::MAX,
        ensures
            l == Label(old(self).next),
            *final(self) == old(self).advance(1),
    {
        let l = Label(self.next);
        self.next = self.next + 1;
        l
    }

    /// Starts over from the first label.
    pub fn reset(&mut self)
        ensures
            final(self).next == 0,
    {
        self.next = 0;
    }
}

} // verus!
