//! Local variables and the generator of unnamed temporaries.

use vstd::prelude::*;

verus! {

/// The index of an unnamed local.
#[derive(Clone, Copy, Debug, PartialEq, Eq, Structural, Hash)]
pub struct LocalId {
    pub idx: u32,
}

/// A local variable: an unnamed temporary or a named variable of the source
/// program.
#[derive(Clone, Copy, Debug, PartialEq, Eq)]
pub enum Local<'arena> {
    Unnamed(LocalId),
    Named(&'arena [u8]),
}

/// Source of unnamed locals for one function. It also owns the two locals
/// that carry state across a `finally` block: one for the pending exit
/// identifier and one for the pending return value. Each of the two is
/// allocated on first use and handed out again on every later use.
#[derive(Clone, Copy, Debug, PartialEq, Eq)]
pub struct Gen<'arena> {
    /// Index of the next unnamed local.
    pub counter: u32,
    /// The local that holds the pending exit identifier, once allocated.
    pub label: Option<Local<'arena>>,
    /// The local that holds the pending return value, once allocated.
    pub retval: Option<Local<'arena>>,
}

impl<'arena> Gen<'arena> {
    /// The generator that has handed out no local yet.
    pub open spec fn new_spec() -> Gen<'arena> {
        Gen { counter: 0, label: None, retval: None }
    }

    /// A generator that has handed out no local yet.
    pub fn new() -> (g: Gen<'arena>)
        ensures
            g == Self::new_spec(),
    {
        Gen { counter: 0, label: None, retval: None }
    }

    /// True when `l`, if it is an unnamed local, lies below the counter.
    pub open spec fn covers(self, l: Option<Local<'arena>>) -> bool {
        l matches Some(Local::Unnamed(id)) ==> id.idx < self.counter
    }

    /// The dedicated locals were handed out by this generator and are not
    /// one and the same.
    pub open spec fn wf(self) -> bool {
        &&& self.covers(self.label)
        &&& self.covers(self.retval)
        &&& (self.label is Some && self.retval is Some) ==> self.label != self.retval
    }

    /// The number of dedicated locals that are not allocated yet.
    pub open spec fn unallocated(self) -> nat {
        (if self.label is None {
            1nat
        } else {
            0nat
        }) + (if self.retval is None {
            1nat
        } else {
            0nat
        })
    }

    /// The dedicated locals that are not allocated yet can be.
    pub open spec fn has_room(self) -> bool {
        self.counter + self.unallocated() <= u32::MAX
    }

    /// The local that `get_label` hands out in this state.
    pub open spec fn label_local(self) -> Local<'arena> {
        match self.label {
            Some(l) => l,
            None => Local::Unnamed(LocalId { idx: self.counter }),
        }
    }

    /// The generator after `get_label`.
    pub open spec fn with_label(self) -> Gen<'arena> {
        match self.label {
            Some(_) => self,
            None => Gen {
                counter: (self.counter + 1) as u32,
                label: Some(Local::Unnamed(LocalId { idx: self.counter })),
                retval: self.retval,
            },
        }
    }

    /// The local that `get_retval` hands out in this state.
    pub open spec fn retval_local(self) -> Local<'arena> {
        match self.retval {
            Some(l) => l,
            None => Local::Unnamed(LocalId { idx: self.counter }),
        }
    }

    /// The generator after `get_retval`.
    pub open spec fn with_retval(self) -> Gen<'arena> {
        match self.retval {
            Some(_) => self,
            None => Gen {
                counter: (self.counter + 1) as u32,
                label: self.label,
                retval: Some(Local::Unnamed(LocalId { idx: self.counter })),
            },
        }
    }

    /// Hands out a fresh unnamed local.
    pub fn get_unnamed(&mut self) -> (l: Local<'arena>)
        requires
            old(self).counter < u32::MAX,
        ensures
            l == Local::Unnamed(LocalId { idx: old(self).counter }),
            final(self).counter == old(self).counter + 1,
            final(self).label == old(self).label,
            final(self).retval == old(self).retval,
    {
        let l = Local::Unnamed(LocalId { idx: self.counter });
        self.counter = self.counter + 1;
        l
    }

    /// The local that holds the pending exit identifier across a `finally`
    /// block; allocated by the first call.
    pub fn get_label(&mut self) -> (l: Local<'arena>)
        requires
            old(self).label is None ==> old(self).counter < u32::MAX,
        ensures
            l == old(self).label_local(),
            *final(self) == old(self).with_label(),
    {
        match self.label {
            Some(l) => l,
            None => {
                let l = Local::Unnamed(LocalId { idx: self.counter });
                self.counter = self.counter + 1;
                self.label = Some(l);
                l
            },
        }
    }

    /// The local that holds the pending return value across a `finally`
    /// block; allocated by the first call.
    pub fn get_retval(&mut self) -> (l: Local<'arena>)
        requires
            old(self).retval is None ==> old(self).counter < u32::MAX,
        ensures
            l == old(self).retval_local(),
            *final(self) == old(self).with_retval(),
    {
        match self.retval {
            Some(l) => l,
            None => {
                let l = Local::Unnamed(LocalId { idx: self.counter });
                self.counter = self.counter + 1;
                self.retval = Some(l);
                l
            },
        }
    }
}

} // verus!
