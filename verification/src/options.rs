//! The options of the compiler that the emitter core reads.

use vstd::prelude::*;

verus! {

/// Array literals are told apart by where they stand in the source: no two
/// of them share an entry of the static data section.
pub const ARRAY_PROVENANCE: u64 = 0x1;

/// The legacy array kinds `varray` and `darray` are emitted as `vec` and
/// `dict`.
pub const HACK_ARR_DV_ARRS: u64 = 0x2;

/// Switches of the runtime that change what is emitted.
#[derive(Clone, Copy, Debug, PartialEq, Eq, Structural, Hash)]
pub struct HhvmFlags {
    pub bits: u64,
}

impl HhvmFlags {
    /// All the bits of `other` are set.
    pub open spec fn spec_contains(self, other: u64) -> bool {
        self.bits & other == other
    }

    /// No switch is set.
    pub fn empty() -> (f: HhvmFlags)
        ensures
            f.bits == 0,
    {
        HhvmFlags { bits: 0 }
    }

    /// The switches of `bits`.
    pub fn from_bits(bits: u64) -> (f: HhvmFlags)
        ensures
            f.bits == bits,
    {
        HhvmFlags { bits }
    }

    /// Tells whether all the bits of `other` are set.
    pub fn contains(&self, other: u64) -> (b: bool)
        ensures
            b == self.spec_contains(other),
    {
        self.bits & other == other
    }
}

/// The options that concern the runtime.
#[derive(Clone, Copy, Debug, PartialEq, Eq, Structural)]
pub struct Hhvm {
    pub flags: HhvmFlags,
}

/// The options of a compilation.
#[derive(Clone, Copy, Debug, PartialEq, Eq, Structural)]
pub struct Options {
    pub hhvm: Hhvm,
}

impl Options {
    /// The options with the given runtime switches.
    pub fn new(flags: HhvmFlags) -> (o: Options)
        ensures
            o.hhvm.flags == flags,
    {
        Options { hhvm: Hhvm { flags } }
    }
}

} // verus!
