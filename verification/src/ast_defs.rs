//! The parts of the syntax tree's definitions that the instruction model
//! is built from.

use vstd::prelude::*;

verus! {

/// Whether a class can be instantiated.
#[derive(Clone, Copy, Debug, PartialEq, Eq, Structural)]
pub enum Abstraction {
    Concrete,
    Abstract,
}

/// The kind of a class-like declaration in the source program.
#[derive(Clone, Copy, Debug, PartialEq, Eq, Structural)]
pub enum ClassishKind {
    Cclass(Abstraction),
    Cinterface,
    Ctrait,
    Cenum,
    CenumClass(Abstraction),
}

/// The visibility of a member in the source program.
#[derive(Clone, Copy, Debug, PartialEq, Eq, Structural)]
pub enum Visibility {
    Private,
    Public,
    Protected,
    Internal,
}

} // verus!
