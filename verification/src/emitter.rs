//! The state of the emitter that the lowering of exits reads and advances.

use crate::adata_state::AdataState;
use crate::instruction_sequence::InstrSeq;
use crate::label;
use crate::local;
use crate::options::Options;
use vstd::prelude::*;

verus! {

/// How far the declared return type of a function depends on reified
/// generics, which decides how a returned value is checked against it.
#[derive(Clone, Copy, Debug, PartialEq, Eq, Structural)]
pub enum ReificationLevel {
    /// The type puts no constraint on the value.
    Unconstrained,
    /// No reified generic occurs in the type.
    Not,
    /// The type may turn out to mention a reified generic.
    Maybe,
    /// The type mentions a reified generic.
    Definitely,
}

/// The declared return type of the function that is being emitted, as far
/// as the check of a returned value needs it.
#[derive(Debug, PartialEq, Eq)]
pub struct ReturnTypeHint<'arena> {
    pub level: ReificationLevel,
    /// The type admits `null`.
    pub nullable: bool,
    /// The code that pushes the runtime structure of the type: of the type
    /// under the `?` where `nullable` is set and the level is `Definitely`.
    pub type_structure: InstrSeq<'arena>,
}

/// What the statements of a function body share while they are emitted.
#[derive(Debug, PartialEq, Eq)]
pub struct StatementState<'arena> {
    /// The declared return type, if a returned value is to be checked.
    pub verify_return: Option<ReturnTypeHint<'arena>>,
    /// The code that checks the `inout` results before a return.
    pub verify_out: InstrSeq<'arena>,
    /// The number of `inout` results that a return hands back besides the
    /// returned value.
    pub num_out: u32,
}

/// The emitter of one function.
#[derive(Debug, PartialEq, Eq)]
pub struct Emitter<'arena> {
    pub options: Options,
    pub label_gen: label::Gen,
    pub local_gen: local::Gen<'arena>,
    pub statement_state: StatementState<'arena>,
    /// The array literals of the unit.
    pub adata_state: AdataState<'arena>,
}

impl<'arena> Emitter<'arena> {
    /// The two emitters differ in their label and local generators at most.
    pub open spec fn differs_in_generators_only(self, other: Emitter<'arena>) -> bool {
        &&& self.options == other.options
        &&& self.statement_state == other.statement_state
        &&& self.adata_state == other.adata_state
    }

    /// The two emitters differ in their static data section at most.
    pub open spec fn differs_in_adata_only(self, other: Emitter<'arena>) -> bool {
        &&& self.options == other.options
        &&& self.label_gen == other.label_gen
        &&& self.local_gen == other.local_gen
        &&& self.statement_state == other.statement_state
    }

    /// The emitter of a function without declared return type and without
    /// `inout` parameters, of which nothing has been emitted yet, with the
    /// given options.
    pub fn new(options: Options) -> (e: Emitter<'arena>)
        ensures
            e.options == options,
            e.adata_state@ == AdataState::<'arena>::spec_default(),
            e.label_gen.next == 0,
            e.local_gen == local::Gen::<'arena>::new_spec(),
            e.statement_state.verify_return is None,
            e.statement_state.verify_out@.len() == 0,
            e.statement_state.num_out == 0,
    {
        Emitter {
            options,
            adata_state: AdataState::default(),
            label_gen: label::Gen::new(),
            local_gen: local::Gen::new(),
            statement_state: StatementState {
                verify_return: None,
                verify_out: InstrSeq::empty(),
                num_out: 0,
            },
        }
    }
}

} // verus!
