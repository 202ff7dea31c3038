//! The static data section of a unit: the array literals that instructions
//! refer to by name.

use crate::hhbc_ast::AdataId;
use crate::runtime::{SpecTypedValue, TypedValue};
use vstd::prelude::*;

verus! {

/// The first character of a serialized legacy array.
pub const ARRAY_PREFIX: u8 = 0x61;

/// The first character of a serialized `varray`.
pub const VARRAY_PREFIX: u8 = 0x79;

/// The first character of a serialized `darray`.
pub const DARRAY_PREFIX: u8 = 0x59;

/// The first character of a serialized `vec`.
pub const VEC_PREFIX: u8 = 0x76;

/// The first character of a serialized `dict`.
pub const DICT_PREFIX: u8 = 0x44;

/// The first character of a serialized `keyset`.
pub const KEYSET_PREFIX: u8 = 0x6b;

/// An entry of the static data section: an array literal under its name.
#[derive(Debug, PartialEq, Eq)]
pub struct HhasAdata<'arena> {
    pub id: String,
    pub value: TypedValue<'arena>,
}

/// The array literals of a unit.
#[derive(Debug, PartialEq, Eq)]
pub struct AdataState<'arena> {
    /// The number of the next entry.
    pub array_identifier_counter: usize,
    /// The names of the array literals that share their entry, by value.
    pub array_identifier_map: Vec<(TypedValue<'arena>, AdataId<'arena>)>,
    /// The entries, in the order of their names.
    pub adata: Vec<HhasAdata<'arena>>,
}

/// What the array literals of a unit are in contracts.
#[verifier::ext_equal]
pub struct SpecAdataState {
    pub counter: nat,
    /// Values with the name of their entry.
    pub map: Seq<(SpecTypedValue, Seq<u8>)>,
    /// Names of entries with their value.
    pub adata: Seq<(Seq<char>, SpecTypedValue)>,
}

impl<'arena> View for AdataState<'arena> {
    type V = SpecAdataState;

    open spec fn view(&self) -> SpecAdataState {
        SpecAdataState {
            counter: self.array_identifier_counter as nat,
            map: Seq::new(
                self.array_identifier_map@.len(),
                |i: int| (self.array_identifier_map@[i].0@, self.array_identifier_map@[i].1@),
            ),
            adata: Seq::new(self.adata@.len(), |i: int| (self.adata@[i].id@, self.adata@[i].value@)),
        }
    }
}

impl<'arena> AdataState<'arena> {
    /// The static data section without entries.
    pub open spec fn spec_default() -> SpecAdataState {
        SpecAdataState { counter: 0, map: Seq::empty(), adata: Seq::empty() }
    }
}

impl<'arena> Default for AdataState<'arena> {
    /// The static data section without entries.
    fn default() -> (r: AdataState<'arena>)
        ensures
            r@ == Self::spec_default(),
    {
        let r = AdataState {
            array_identifier_counter: 0,
            array_identifier_map: Vec::new(),
            adata: Vec::new(),
        };
        assert(r@ =~= Self::spec_default());
        r
    }
}

} // verus!
