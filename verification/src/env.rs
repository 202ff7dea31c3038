//! The environment of the statement that is being emitted.

use crate::jump_targets;
use vstd::prelude::*;

verus! {

/// The environment of the statement that is being emitted: the arena that
/// instruction operands are allocated in, and the enclosing regions with the
/// exit identifiers of the function.
pub struct Env<'arena> {
    pub arena: &'arena bumpalo::Bump,
    pub jump_targets_gen: jump_targets::Gen,
}

impl<'arena> Env<'arena> {
    /// The two environments differ in the exit identifiers that were handed
    /// out at most.
    pub open spec fn differs_in_exit_ids_only(self, other: Env<'arena>) -> bool {
        &&& self.arena == other.arena
        &&& self.jump_targets_gen.jump_targets == other.jump_targets_gen.jump_targets
    }

    /// The environment at the start of a function.
    pub fn new(arena: &'arena bumpalo::Bump) -> (env: Env<'arena>)
        ensures
            env.arena == arena,
            env.jump_targets_gen.exit_keys@.len() == 0,
            env.jump_targets_gen.jump_targets.regions@.len() == 0,
    {
        Env { arena, jump_targets_gen: jump_targets::Gen::new() }
    }
}

} // verus!
