//! Position markers.

use crate::hhbc_ast::{Instruct, Pseudo, SpecInstruct, SrcLoc};
use crate::instruction_sequence::InstrSeq;
use vstd::prelude::*;

verus! {

/// The marker that tells the assembler which source span the following
/// instructions belong to.
pub fn emit_pos<'arena>(pos: &SrcLoc) -> (r: InstrSeq<'arena>)
    ensures
        r@ == seq![SpecInstruct::Pseudo(Pseudo::SrcLoc(*pos))],
{
    InstrSeq::instr(Instruct::Pseudo(Pseudo::SrcLoc(*pos)))
}

} // verus!
