//! Arena allocation of instruction operands.
//!
//! Strings and label tables of instructions live in a `bumpalo::Bump` arena
//! that outlives the instruction sequences of a compilation unit.

use vstd::prelude::*;

verus! {

#[verifier::external_type_specification]
#[verifier::external_body]
pub struct ExBump<const MIN_ALIGN: usize>(bumpalo::Bump<MIN_ALIGN>);

/// `bumpalo::collections::String::from_str_in` followed by `into_bump_str`:
/// a copy of `s` that lives in the arena. The copy has the text of `s`.
#[verifier::external_body]
pub(crate) fn alloc_str<'arena>(alloc: &'arena bumpalo::Bump, s: &str) -> (r: &'arena str)
    ensures
        r@ == s@,
{
    bumpalo::collections::String::from_str_in(s, alloc).into_bump_str()
}

/// `bumpalo::collections::Vec::from_iter_in` followed by `into_bump_slice`:
/// moves the items into the arena. The slice holds them in the order given.
#[verifier::external_body]
pub(crate) fn alloc_slice<'arena, T>(alloc: &'arena bumpalo::Bump, items: Vec<T>) -> (r:
    &'arena [T])
    ensures
        r@ == items@,
{
    bumpalo::collections::Vec::from_iter_in(items, alloc).into_bump_slice()
}

} // verus!
