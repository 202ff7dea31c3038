//! Lowering of `return`, `break` and `continue` in the presence of
//! `try`/`finally`.
//!
//! The virtual machine has no `finally`. An exit that leaves the protected
//! body of a `try` is therefore emitted as a jump into the `finally` block,
//! after the exit's identifier (and the value of a `return`) was saved in a
//! dedicated local. The code after the block, the epilogue, reads the
//! identifier back and carries the exit on. In the protected body the
//! emitter leaves the exit itself behind the jump, as a mark: the scan of the
//! body finds it there, and the cleanup removes it.

use crate::arena::alloc_slice;
use crate::emit_fatal::{break_continue_message, emit_fatal_for_break_continue, spec_emit_fatal};
use crate::emitter::{Emitter, ReificationLevel, ReturnTypeHint, StatementState};
use crate::env::Env;
use crate::hhbc_ast::{
    FatalOp,
    Instruct,
    IsTypeOp,
    Opcodes,
    Pseudo,
    SpecInstruct,
    SpecOpcodes,
    SrcLoc,
    SwitchKind,
};
use crate::instruction_sequence::{spec_instrs, InstrSeq};
use crate::iterator::IterId;
use crate::jump_targets;
use crate::jump_targets::{
    closest_finally,
    exit_id,
    lemma_adjusted_level_bound,
    lemma_target_region_bound,
    live_iterators,
    resolve,
    resolved_label,
    with_key,
    ExitKey,
    Level,
    Region,
    ResolvedJumpTarget,
    SpecResolved,
    StateId,
};
use crate::label;
use crate::label::Label;
use crate::local;
use vstd::prelude::*;

verus! {

/// The part of the emitter's state that lowering an exit may advance.
#[verifier::ext_equal]
pub struct EmitState<'arena> {
    pub label_gen: label::Gen,
    pub local_gen: local::Gen<'arena>,
    /// The keys that have an exit identifier.
    pub exit_keys: Seq<ExitKey>,
}

/// Emitted code, and the state after its emission.
#[verifier::ext_equal]
pub struct Emitted<'arena> {
    pub instrs: Seq<SpecInstruct<'arena>>,
    pub state: EmitState<'arena>,
}

/// The state that lowering an exit may advance, taken from the emitter and
/// the environment.
pub open spec fn emit_state<'arena>(e: Emitter<'arena>, env: Env<'arena>) -> EmitState<'arena> {
    EmitState {
        label_gen: e.label_gen,
        local_gen: e.local_gen,
        exit_keys: env.jump_targets_gen.exit_keys@,
    }
}

/// The generators have what it takes to lower one exit: a label, the two
/// dedicated locals and an exit identifier.
pub open spec fn can_emit_exit<'arena>(e: Emitter<'arena>, env: Env<'arena>) -> bool {
    &&& e.label_gen.next < u32::MAX
    &&& e.local_gen.has_room()
    &&& env.jump_targets_gen.has_room()
    &&& e.statement_state.num_out < u32::MAX
}

/// An instruction that is an opcode.
pub open spec fn op<'arena>(o: SpecOpcodes<'arena>) -> SpecInstruct<'arena> {
    SpecInstruct::Opcode(o)
}

/// The jump to `l` that releases `iters` on the way: a plain `Jmp` when
/// there is nothing to release.
pub open spec fn spec_jump_to_label<'arena>(l: Label, iters: Seq<IterId>) -> Seq<
    SpecInstruct<'arena>,
> {
    if iters.len() == 0 {
        seq![op(SpecOpcodes::Jmp(l))]
    } else {
        seq![op(SpecOpcodes::IterBreak(l, iters))]
    }
}

/// The code that stores the exit identifier `id` in the local `l`.
pub open spec fn spec_save_label_id<'arena>(l: local::Local<'arena>, id: int) -> Seq<
    SpecInstruct<'arena>,
> {
    seq![op(SpecOpcodes::Int(id as i64)), op(SpecOpcodes::SetL(l)), op(SpecOpcodes::PopC)]
}

/// One `IterFree` for each iterator, in order.
pub open spec fn spec_iter_free<'arena>(iters: Seq<IterId>) -> Seq<SpecInstruct<'arena>> {
    Seq::new(iters.len(), |i: int| op(SpecOpcodes::IterFree(iters[i])))
}

/// The check of the value on the stack against the declared return type,
/// and the number of labels that the check defines.
///
/// Without a declared type, or with one that constrains nothing, there is no
/// check. A type without reified generics is checked by `VerifyRetTypeC`.
/// Otherwise the structure of the type is pushed and `VerifyRetTypeTS` checks
/// against it; where the type certainly mentions a reified generic and admits
/// `null`, a `null` is let through before that.
pub open spec fn spec_verify_return<'arena>(
    hint: Option<ReturnTypeHint<'arena>>,
    done: Label,
) -> (Seq<SpecInstruct<'arena>>, nat) {
    match hint {
        None => (Seq::empty(), 0),
        Some(h) => match h.level {
            ReificationLevel::Unconstrained => (Seq::empty(), 0),
            ReificationLevel::Not => (seq![op(SpecOpcodes::VerifyRetTypeC)], 0),
            ReificationLevel::Maybe => (
                h.type_structure@.push(op(SpecOpcodes::VerifyRetTypeTS)),
                0,
            ),
            ReificationLevel::Definitely => if h.nullable {
                (
                    seq![
                        op(SpecOpcodes::Dup),
                        op(SpecOpcodes::IsTypeC(IsTypeOp::Null)),
                        op(SpecOpcodes::JmpNZ(done)),
                    ] + h.type_structure@ + seq![
                        op(SpecOpcodes::VerifyRetTypeTS),
                        SpecInstruct::Pseudo(Pseudo::Label(done)),
                    ],
                    1,
                )
            } else {
                (h.type_structure@.push(op(SpecOpcodes::VerifyRetTypeTS)), 0)
            },
        },
    }
}

/// The instruction that returns the value on the stack, together with the
/// `inout` results if there are any.
pub open spec fn spec_ret<'arena>(num_out: u32) -> SpecInstruct<'arena> {
    if num_out != 0 {
        op(SpecOpcodes::RetM((num_out + 1) as u32))
    } else {
        op(SpecOpcodes::RetC)
    }
}

/// The code for a `return`, and the state after its emission.
///
/// In the epilogue of a `finally` block the value to return is first
/// loaded from the local in which it was saved.
///
/// Outside any `finally`-protected body the value on the stack is then
/// checked, the live iterators are released and the function returns.
///
/// Inside a protected body the return goes through the nearest `finally`
/// block: the exit identifier of the return and the value are saved, and the
/// jump into the block is followed by a `RetC` that marks the exit for the
/// scan of the body.
pub open spec fn spec_emit_return<'arena>(
    st: EmitState<'arena>,
    ss: StatementState<'arena>,
    regions: Seq<Region>,
    in_finally_epilogue: bool,
) -> Emitted<'arena> {
    let load = if in_finally_epilogue {
        seq![op(SpecOpcodes::CGetL(st.local_gen.retval_local()))]
    } else {
        Seq::empty()
    };
    let local_gen = if in_finally_epilogue {
        st.local_gen.with_retval()
    } else {
        st.local_gen
    };
    match closest_finally(regions) {
        None => {
            let (verify, labels) = spec_verify_return(ss.verify_return, Label(st.label_gen.next));
            Emitted {
                instrs: load + verify + ss.verify_out@ + spec_iter_free(live_iterators(regions))
                    + seq![spec_ret(ss.num_out)],
                state: EmitState {
                    label_gen: st.label_gen.advance(labels),
                    local_gen,
                    exit_keys: st.exit_keys,
                },
            }
        },
        Some((finally_label, iters)) => {
            let with_label = local_gen.with_label();
            Emitted {
                instrs: load + spec_save_label_id(
                    local_gen.label_local(),
                    exit_id(st.exit_keys, ExitKey::Return),
                ) + seq![op(SpecOpcodes::SetL(with_label.retval_local())), op(SpecOpcodes::PopC)]
                    + spec_jump_to_label(finally_label, iters) + seq![op(SpecOpcodes::RetC)],
                state: EmitState {
                    label_gen: st.label_gen,
                    local_gen: with_label.with_retval(),
                    exit_keys: with_key(st.exit_keys, ExitKey::Return),
                },
            }
        },
    }
}

/// The jump to `l` that releases `iters` on the way.
pub fn emit_jump_to_label<'arena>(alloc: &'arena bumpalo::Bump, l: Label, iters: Vec<IterId>) -> (r:
    InstrSeq<'arena>)
    ensures
        r@ == spec_jump_to_label::<'arena>(l, iters@),
{
    if iters.len() == 0 {
        InstrSeq::instr(Instruct::Opcode(Opcodes::Jmp(l)))
    } else {
        let ghost ids = iters@;
        let slice = alloc_slice(alloc, iters);
        let r = InstrSeq::instr(Instruct::Opcode(Opcodes::IterBreak(l, slice)));
        assert(r@ =~= spec_jump_to_label::<'arena>(l, ids));
        r
    }
}

/// The code that stores the exit identifier `id` in the local that is
/// dedicated to it.
pub fn emit_save_label_id<'arena>(local_gen: &mut local::Gen<'arena>, id: StateId) -> (r: InstrSeq<
    'arena,
>)
    requires
        old(local_gen).label is None ==> old(local_gen).counter < u32::MAX,
    ensures
        r@ == spec_save_label_id(old(local_gen).label_local(), id.0 as int),
        *final(local_gen) == old(local_gen).with_label(),
{
    let l = local_gen.get_label();
    let mut r = InstrSeq::instr(Instruct::Opcode(Opcodes::Int(id.0 as i64)));
    r.push(Instruct::Opcode(Opcodes::SetL(l)));
    r.push(Instruct::Opcode(Opcodes::PopC));
    assert(r@ =~= spec_save_label_id(old(local_gen).label_local(), id.0 as int));
    r
}

/// One `IterFree` for each iterator, in order.
fn emit_iter_free<'arena>(iters: &Vec<IterId>) -> (r: InstrSeq<'arena>)
    ensures
        r@ == spec_iter_free::<'arena>(iters@),
{
    let mut r = InstrSeq::empty();
    let mut i: usize = 0;
    while i < iters.len()
        invariant
            i <= iters.len(),
            r@ == spec_iter_free::<'arena>(iters@.take(i as int)),
        decreases iters.len() - i,
    {
        r.push(Instruct::Opcode(Opcodes::IterFree(iters[i])));
        assert(r@ =~= spec_iter_free::<'arena>(iters@.take(i + 1)));
        i += 1;
    }
    assert(iters@.take(i as int) =~= iters@);
    r
}

/// The check of the value on the stack against the declared return type.
fn emit_verify_return<'arena>(e: &mut Emitter<'arena>) -> (r: InstrSeq<'arena>)
    requires
        old(e).label_gen.next < u32::MAX,
    ensures
        r@ == spec_verify_return(
            old(e).statement_state.verify_return,
            Label(old(e).label_gen.next),
        ).0,
        final(e).label_gen == old(e).label_gen.advance(
            spec_verify_return(
                old(e).statement_state.verify_return,
                Label(old(e).label_gen.next),
            ).1,
        ),
        final(e).local_gen == old(e).local_gen,
        final(e).differs_in_generators_only(*old(e)),
{
    let mut r = InstrSeq::empty();
    match &e.statement_state.verify_return {
        None => {},
        Some(h) => match h.level {
            ReificationLevel::Unconstrained => {},
            ReificationLevel::Not => {
                r.push(Instruct::Opcode(Opcodes::VerifyRetTypeC));
            },
            ReificationLevel::Maybe => {
                r.extend(&h.type_structure);
                r.push(Instruct::Opcode(Opcodes::VerifyRetTypeTS));
            },
            ReificationLevel::Definitely => {
                if h.nullable {
                    let done = e.label_gen.next_regular();
                    r.push(Instruct::Opcode(Opcodes::Dup));
                    r.push(Instruct::Opcode(Opcodes::IsTypeC(IsTypeOp::Null)));
                    r.push(Instruct::Opcode(Opcodes::JmpNZ(done)));
                    r.extend(&h.type_structure);
                    r.push(Instruct::Opcode(Opcodes::VerifyRetTypeTS));
                    r.push(Instruct::Pseudo(Pseudo::Label(done)));
                } else {
                    r.extend(&h.type_structure);
                    r.push(Instruct::Opcode(Opcodes::VerifyRetTypeTS));
                }
            },
        },
    }
    assert(r@ =~= spec_verify_return(
        old(e).statement_state.verify_return,
        Label(old(e).label_gen.next),
    ).0);
    r
}

/// Emits a `return` of the value on the stack.
///
/// `in_finally_epilogue` is set when the return was found in a protected
/// body and is now carried on after its `finally` block.
pub fn emit_return<'arena>(
    e: &mut Emitter<'arena>,
    in_finally_epilogue: bool,
    env: &mut Env<'arena>,
) -> (r: InstrSeq<'arena>)
    requires
        can_emit_exit(*old(e), *old(env)),
    ensures
        r@ == spec_emit_return(
            emit_state(*old(e), *old(env)),
            old(e).statement_state,
            old(env).jump_targets_gen.jump_targets.regions@,
            in_finally_epilogue,
        ).instrs,
        emit_state(*final(e), *final(env)) == spec_emit_return(
            emit_state(*old(e), *old(env)),
            old(e).statement_state,
            old(env).jump_targets_gen.jump_targets.regions@,
            in_finally_epilogue,
        ).state,
        final(e).differs_in_generators_only(*old(e)),
        final(env).differs_in_exit_ids_only(*old(env)),
        final(e).local_gen.has_room(),
        final(e).label_gen.next <= old(e).label_gen.next + 1,
        final(env).jump_targets_gen.exit_keys@.len() <= old(env).jump_targets_gen.exit_keys@.len()
            + 1,
{
    let ghost spec = spec_emit_return(
        emit_state(*old(e), *old(env)),
        old(e).statement_state,
        old(env).jump_targets_gen.jump_targets.regions@,
        in_finally_epilogue,
    );
    let mut r = InstrSeq::empty();
    if in_finally_epilogue {
        let retval = e.local_gen.get_retval();
        r.push(Instruct::Opcode(Opcodes::CGetL(retval)));
    }
    match env.jump_targets_gen.jump_targets.get_closest_enclosing_finally_label() {
        None => {
            let iters = env.jump_targets_gen.jump_targets.iterators();
            let verify = emit_verify_return(e);
            r.append(verify);
            r.extend(&e.statement_state.verify_out);
            r.append(emit_iter_free(&iters));
            let num_out = e.statement_state.num_out;
            if num_out != 0 {
                r.push(Instruct::Opcode(Opcodes::RetM(num_out + 1)));
            } else {
                r.push(Instruct::Opcode(Opcodes::RetC));
            }
            assert(r@ =~= spec.instrs);
            assert(emit_state(*e, *env) =~= spec.state);
            r
        },
        Some((target_label, iterators_to_release)) => {
            let id = env.jump_targets_gen.get_id_for_return();
            r.append(emit_save_label_id(&mut e.local_gen, id));
            let retval = e.local_gen.get_retval();
            r.push(Instruct::Opcode(Opcodes::SetL(retval)));
            r.push(Instruct::Opcode(Opcodes::PopC));
            r.append(emit_jump_to_label(env.arena, target_label, iterators_to_release));
            r.push(Instruct::Opcode(Opcodes::RetC));
            assert(r@ =~= spec.instrs);
            assert(emit_state(*e, *env) =~= spec.state);
            r
        },
    }
}

/// The bit that is set for a `break` and clear for a `continue`.
pub const IS_BREAK: u8 = 0b01;

/// The bit that is set when the jump is carried on after a `finally` block.
pub const IN_FINALLY_EPILOGUE: u8 = 0b10;

/// What kind of jump `emit_break_or_continue` emits, and where.
#[derive(Clone, Copy, Debug, PartialEq, Eq, Structural, Hash)]
pub struct EmitBreakOrContinueFlags {
    pub bits: u8,
}

impl EmitBreakOrContinueFlags {
    /// The flags say `break`, not `continue`.
    pub open spec fn spec_is_break(self) -> bool {
        self.bits & IS_BREAK == IS_BREAK
    }

    /// The flags say that the jump is carried on after a `finally` block.
    pub open spec fn spec_in_finally_epilogue(self) -> bool {
        self.bits & IN_FINALLY_EPILOGUE == IN_FINALLY_EPILOGUE
    }

    /// The flags for the given kind and place of a jump.
    pub fn new(is_break: bool, in_finally_epilogue: bool) -> (f: EmitBreakOrContinueFlags)
        ensures
            f.spec_is_break() == is_break,
            f.spec_in_finally_epilogue() == in_finally_epilogue,
            f.bits == (if is_break {
                IS_BREAK
            } else {
                0u8
            }) + (if in_finally_epilogue {
                IN_FINALLY_EPILOGUE
            } else {
                0u8
            }),
    {
        assert(0u8 & 1u8 != 1u8 && 1u8 & 1u8 == 1u8 && 2u8 & 1u8 != 1u8 && 3u8 & 1u8 == 1u8)
            by (bit_vector);
        assert(0u8 & 2u8 != 2u8 && 1u8 & 2u8 != 2u8 && 2u8 & 2u8 == 2u8 && 3u8 & 2u8 == 2u8)
            by (bit_vector);
        let low: u8 = if is_break {
            IS_BREAK
        } else {
            0
        };
        let high: u8 = if in_finally_epilogue {
            IN_FINALLY_EPILOGUE
        } else {
            0
        };
        EmitBreakOrContinueFlags { bits: low + high }
    }

    /// The flags of `bits`, without the bits that mean nothing.
    pub fn from_bits_truncate(bits: u8) -> (f: EmitBreakOrContinueFlags)
        ensures
            f.bits == bits & 0b11,
    {
        EmitBreakOrContinueFlags { bits: bits & 0b11 }
    }

    /// Tells whether all the bits of `other` are set.
    pub fn contains(&self, other: EmitBreakOrContinueFlags) -> (b: bool)
        ensures
            b == (self.bits & other.bits == other.bits),
    {
        self.bits & other.bits == other.bits
    }

    /// The flags with the bits of both.
    pub fn union(self, other: EmitBreakOrContinueFlags) -> (f: EmitBreakOrContinueFlags)
        ensures
            f.bits == self.bits | other.bits,
    {
        EmitBreakOrContinueFlags { bits: self.bits | other.bits }
    }
}

/// The mark that a jump through a `finally` block leaves behind: the jump
/// that is still to be made after the block.
pub open spec fn spec_exit_mark<'arena>(is_break: bool, level: int) -> SpecInstruct<'arena> {
    SpecInstruct::Pseudo(
        if is_break {
            Pseudo::Break(level as isize)
        } else {
            Pseudo::Continue(level as isize)
        },
    )
}

/// The code for a `break` (or else a `continue`) of the given level, and the
/// state after its emission.
///
/// A level that no enclosing loop or switch answers gives code that raises a
/// runtime error. A jump that crosses no `finally` block is a position
/// marker and the jump; in an epilogue a jump of level 1 clears the local
/// that holds the exit identifier first. A jump that crosses a `finally`
/// block goes into the block, after its exit identifier was saved unless the
/// code is an epilogue, and is followed by a mark with the level that is left.
pub open spec fn spec_emit_break_or_continue<'arena>(
    st: EmitState<'arena>,
    regions: Seq<Region>,
    is_break: bool,
    in_finally_epilogue: bool,
    pos: SrcLoc,
    level: int,
) -> Emitted<'arena> {
    match resolve(regions, is_break, level) {
        SpecResolved::NotFound => Emitted {
            instrs: spec_emit_fatal(FatalOp::Runtime, pos, break_continue_message(level as nat)),
            state: st,
        },
        SpecResolved::Regular { target_label, iterators_to_release } => {
            let jump = seq![SpecInstruct::Pseudo(Pseudo::SrcLoc(pos))] + spec_jump_to_label(
                target_label,
                iterators_to_release,
            );
            if in_finally_epilogue && level == 1 {
                Emitted {
                    instrs: seq![op(SpecOpcodes::UnsetL(st.local_gen.label_local()))] + jump,
                    state: EmitState {
                        label_gen: st.label_gen,
                        local_gen: st.local_gen.with_label(),
                        exit_keys: st.exit_keys,
                    },
                }
            } else {
                Emitted { instrs: jump, state: st }
            }
        },
        SpecResolved::TryFinally {
            target_label,
            finally_label,
            adjusted_level,
            iterators_to_release,
        } => {
            let jump = spec_jump_to_label(finally_label, iterators_to_release) + seq![
                SpecInstruct::Pseudo(Pseudo::SrcLoc(pos)),
                spec_exit_mark(is_break, adjusted_level),
            ];
            if in_finally_epilogue {
                Emitted { instrs: jump, state: st }
            } else {
                Emitted {
                    instrs: spec_save_label_id(
                        st.local_gen.label_local(),
                        exit_id(st.exit_keys, ExitKey::Label(target_label)),
                    ) + jump,
                    state: EmitState {
                        label_gen: st.label_gen,
                        local_gen: st.local_gen.with_label(),
                        exit_keys: with_key(st.exit_keys, ExitKey::Label(target_label)),
                    },
                }
            }
        },
    }
}

/// Emits a `break` or a `continue` of the given level.
pub fn emit_break_or_continue<'arena>(
    e: &mut Emitter<'arena>,
    flags: EmitBreakOrContinueFlags,
    env: &mut Env<'arena>,
    pos: &SrcLoc,
    level: Level,
) -> (r: InstrSeq<'arena>)
    requires
        can_emit_exit(*old(e), *old(env)),
        level <= isize::MAX,
    ensures
        r@ == spec_emit_break_or_continue(
            emit_state(*old(e), *old(env)),
            old(env).jump_targets_gen.jump_targets.regions@,
            flags.spec_is_break(),
            flags.spec_in_finally_epilogue(),
            *pos,
            level as int,
        ).instrs,
        emit_state(*final(e), *final(env)) == spec_emit_break_or_continue(
            emit_state(*old(e), *old(env)),
            old(env).jump_targets_gen.jump_targets.regions@,
            flags.spec_is_break(),
            flags.spec_in_finally_epilogue(),
            *pos,
            level as int,
        ).state,
        final(e).differs_in_generators_only(*old(e)),
        final(env).differs_in_exit_ids_only(*old(env)),
        final(e).local_gen.has_room(),
        final(e).label_gen == old(e).label_gen,
        flags.spec_in_finally_epilogue() ==> final(env).jump_targets_gen.exit_keys@ == old(
            env,
        ).jump_targets_gen.exit_keys@,
{
    let ghost spec = spec_emit_break_or_continue(
        emit_state(*old(e), *old(env)),
        old(env).jump_targets_gen.jump_targets.regions@,
        flags.spec_is_break(),
        flags.spec_in_finally_epilogue(),
        *pos,
        level as int,
    );
    let in_finally_epilogue = flags.contains(
        EmitBreakOrContinueFlags { bits: IN_FINALLY_EPILOGUE },
    );
    let is_break = flags.contains(EmitBreakOrContinueFlags { bits: IS_BREAK });
    match env.jump_targets_gen.jump_targets.get_target_for_level(is_break, level) {
        ResolvedJumpTarget::NotFound => emit_fatal_for_break_continue(env.arena, pos, level),
        ResolvedJumpTarget::ResolvedRegular(target_label, iterators_to_release) => {
            let mut r = InstrSeq::empty();
            if in_finally_epilogue && level == 1 {
                let l = e.local_gen.get_label();
                r.push(Instruct::Opcode(Opcodes::UnsetL(l)));
            }
            r.push(Instruct::Pseudo(Pseudo::SrcLoc(*pos)));
            r.append(emit_jump_to_label(env.arena, target_label, iterators_to_release));
            assert(r@ =~= spec.instrs);
            assert(emit_state(*e, *env) =~= spec.state);
            r
        },
        ResolvedJumpTarget::ResolvedTryFinally(resolved) => {
            proof {
                lemma_adjusted_level_bound(
                    old(env).jump_targets_gen.jump_targets.regions@,
                    is_break,
                    level as int,
                );
            }
            let mut r = InstrSeq::empty();
            if !in_finally_epilogue {
                let label_id = env.jump_targets_gen.get_id_for_label(resolved.target_label);
                r.append(emit_save_label_id(&mut e.local_gen, label_id));
            }
            r.append(
                emit_jump_to_label(
                    env.arena,
                    resolved.finally_label,
                    resolved.iterators_to_release,
                ),
            );
            r.push(Instruct::Pseudo(Pseudo::SrcLoc(*pos)));
            let adjusted_level = resolved.adjusted_level as isize;
            if is_break {
                r.push(Instruct::Pseudo(Pseudo::Break(adjusted_level)));
            } else {
                r.push(Instruct::Pseudo(Pseudo::Continue(adjusted_level)));
            }
            assert(r@ =~= spec.instrs);
            assert(emit_state(*e, *env) =~= spec.state);
            r
        },
    }
}

/// What the exit identifier of an instruction of a protected body stands
/// for: the return for a return, the label that the jump is headed for in
/// the end for a `Break` or `Continue` that resolves against the regions.
/// Other instructions are no exits and have none.
pub open spec fn exit_key_of<'arena>(regions: Seq<Region>, i: SpecInstruct<'arena>) -> Option<
    ExitKey,
> {
    match i {
        SpecInstruct::Pseudo(Pseudo::Break(level)) => match resolved_label(
            regions,
            true,
            level as int,
        ) {
            Some(l) => Some(ExitKey::Label(l)),
            None => None,
        },
        SpecInstruct::Pseudo(Pseudo::Continue(level)) => match resolved_label(
            regions,
            false,
            level as int,
        ) {
            Some(l) => Some(ExitKey::Label(l)),
            None => None,
        },
        _ => if i.is_return() {
            Some(ExitKey::Return)
        } else {
            None
        },
    }
}

/// The exits of a protected body: an exit identifier with the first exit of
/// the body that has it.
pub type Exits<'arena> = Seq<(StateId, SpecInstruct<'arena>)>;

/// Where an exit with identifier `id` belongs among the first `n` of the
/// ordered `exits`: behind those with a smaller or the same identifier.
pub open spec fn insert_pos<'arena>(exits: Exits<'arena>, id: StateId, n: int) -> int
    decreases n,
{
    if n <= 0 || n > exits.len() || exits[n - 1].0.0 <= id.0 {
        n
    } else {
        insert_pos(exits, id, n - 1)
    }
}

/// The ordered `exits` with the exit `i` of identifier `id`, unless an exit
/// with that identifier is there already.
pub open spec fn insert_exit<'arena>(
    exits: Exits<'arena>,
    id: StateId,
    i: SpecInstruct<'arena>,
) -> Exits<'arena> {
    let p = insert_pos(exits, id, exits.len() as int);
    if p > 0 && exits[p - 1].0 == id {
        exits
    } else {
        exits.insert(p, (id, i))
    }
}

/// The exits are in the order of their identifiers and no identifier occurs
/// twice.
pub open spec fn ascending<'arena>(exits: Exits<'arena>) -> bool {
    forall|i: int, j: int| 0 <= i < j < exits.len() ==> exits[i].0.0 < exits[j].0.0
}

/// Each of the exits is a return, or a `Break` or `Continue` of a level of
/// 1 or more.
pub open spec fn all_exits<'arena>(exits: Exits<'arena>) -> bool {
    forall|i: int|
        0 <= i < exits.len() ==> {
            &&& (#[trigger] exits[i]).1.is_exit()
            &&& exits[i].1 matches SpecInstruct::Pseudo(Pseudo::Break(level)) ==> level >= 1
            &&& exits[i].1 matches SpecInstruct::Pseudo(Pseudo::Continue(level)) ==> level >= 1
        }
}

/// The scan of the first `n` instructions of a protected body: the keys
/// that have an exit identifier afterwards, and the exits found.
///
/// Each exit of the body asks for the identifier of what it stands for. Of
/// the exits with one identifier the first is kept.
pub open spec fn spec_collect<'arena>(
    regions: Seq<Region>,
    body: Seq<SpecInstruct<'arena>>,
    keys: Seq<ExitKey>,
    n: int,
) -> (Seq<ExitKey>, Exits<'arena>)
    decreases n,
{
    if n <= 0 || n > body.len() {
        (keys, Seq::empty())
    } else {
        let (ks, exits) = spec_collect(regions, body, keys, n - 1);
        match exit_key_of(regions, body[n - 1]) {
            None => (ks, exits),
            Some(k) => (
                with_key(ks, k),
                insert_exit(exits, StateId(exit_id(ks, k) as u32), body[n - 1]),
            ),
        }
    }
}

/// Inserting an exit keeps the exits ordered and made of exits.
pub proof fn lemma_insert_exit_wf<'arena>(
    exits: Exits<'arena>,
    id: StateId,
    i: SpecInstruct<'arena>,
)
    requires
        ascending(exits),
        all_exits(exits),
        i.is_exit(),
        i matches SpecInstruct::Pseudo(Pseudo::Break(level)) ==> level >= 1,
        i matches SpecInstruct::Pseudo(Pseudo::Continue(level)) ==> level >= 1,
    ensures
        ascending(insert_exit(exits, id, i)),
        all_exits(insert_exit(exits, id, i)),
{
    let n = exits.len() as int;
    let p = insert_pos(exits, id, n);
    lemma_insert_pos(exits, id, n);
    let after = insert_exit(exits, id, i);
    if !(p > 0 && exits[p - 1].0 == id) {
        assert forall|a: int, b: int| 0 <= a < b < after.len() implies after[a].0.0
            < after[b].0.0 by {
            if b < p {
                assert(after[a] == exits[a] && after[b] == exits[b]);
            } else if b == p {
                assert(after[a] == exits[a]);
            } else if a < p {
                assert(after[a] == exits[a] && after[b] == exits[b - 1]);
            } else if a == p {
                assert(after[b] == exits[b - 1]);
            } else {
                assert(after[a] == exits[a - 1] && after[b] == exits[b - 1]);
            }
        }
        assert forall|a: int| 0 <= a < after.len() implies {
            &&& (#[trigger] after[a]).1.is_exit()
            &&& after[a].1 matches SpecInstruct::Pseudo(Pseudo::Break(level)) ==> level >= 1
            &&& after[a].1 matches SpecInstruct::Pseudo(Pseudo::Continue(level)) ==> level >= 1
        } by {
            if a < p {
                assert(after[a] == exits[a]);
            } else if a > p {
                assert(after[a] == exits[a - 1]);
            }
        }
    }
}

/// Where an exit belongs among ordered exits: all before it have a smaller
/// or the same identifier, all behind it a greater one.
pub proof fn lemma_insert_pos<'arena>(exits: Exits<'arena>, id: StateId, n: int)
    requires
        ascending(exits),
        0 <= n <= exits.len(),
        forall|j: int| n <= j < exits.len() ==> exits[j].0.0 > id.0,
    ensures
        0 <= insert_pos(exits, id, n) <= n,
        forall|j: int| 0 <= j < insert_pos(exits, id, n) ==> exits[j].0.0 <= id.0,
        forall|j: int| insert_pos(exits, id, n) <= j < exits.len() ==> exits[j].0.0 > id.0,
        insert_pos(exits, id, exits.len() as int) == insert_pos(exits, id, n),
    decreases n,
{
    if n > 0 && exits[n - 1].0.0 > id.0 {
        lemma_insert_pos(exits, id, n - 1);
        lemma_insert_pos_skip(exits, id, exits.len() as int, n - 1);
        lemma_insert_pos_skip(exits, id, exits.len() as int, n);
    } else {
        lemma_insert_pos_skip(exits, id, exits.len() as int, n);
    }
}

/// The exits with a greater identifier at the end play no part in where an
/// exit belongs.
pub proof fn lemma_insert_pos_skip<'arena>(exits: Exits<'arena>, id: StateId, hi: int, n: int)
    requires
        0 <= n <= hi <= exits.len(),
        forall|j: int| n <= j < hi ==> exits[j].0.0 > id.0,
    ensures
        insert_pos(exits, id, hi) == insert_pos(exits, id, n),
    decreases hi - n,
{
    if n < hi {
        lemma_insert_pos_skip(exits, id, hi - 1, n);
    }
}

/// The scan leaves exits that are ordered and made of exits.
pub proof fn lemma_collect_wf<'arena>(
    regions: Seq<Region>,
    body: Seq<SpecInstruct<'arena>>,
    keys: Seq<ExitKey>,
    n: int,
)
    ensures
        ascending(spec_collect(regions, body, keys, n).1),
        all_exits(spec_collect(regions, body, keys, n).1),
    decreases n,
{
    if 0 < n <= body.len() {
        lemma_collect_wf(regions, body, keys, n - 1);
        let (ks, exits) = spec_collect(regions, body, keys, n - 1);
        match exit_key_of(regions, body[n - 1]) {
            None => {},
            Some(k) => {
                match body[n - 1] {
                    SpecInstruct::Pseudo(Pseudo::Break(level)) => {
                        lemma_target_region_bound(regions, regions.len() as int, level as int);
                    },
                    SpecInstruct::Pseudo(Pseudo::Continue(level)) => {
                        lemma_target_region_bound(regions, regions.len() as int, level as int);
                    },
                    _ => {},
                }
                lemma_insert_exit_wf(exits, StateId(exit_id(ks, k) as u32), body[n - 1]);
            },
        }
    }
}

/// The exits of a protected body, by exit identifier: for each identifier
/// the first return, `Break` or `Continue` of the body that has it.
#[derive(Debug, PartialEq, Eq)]
pub struct JumpInstructions<'a, 'arena>(Vec<(StateId, &'a Instruct<'arena>)>);

impl<'a, 'arena> View for JumpInstructions<'a, 'arena> {
    type V = Exits<'arena>;

    closed spec fn view(&self) -> Exits<'arena> {
        Seq::new(self.0@.len(), |i: int| (self.0@[i].0, self.0@[i].1@))
    }
}

impl<'a, 'arena> JumpInstructions<'a, 'arena> {
    /// The exits are in the order of their identifiers, without an
    /// identifier twice, and each is a return, a `Break` or a `Continue`.
    /// This holds of every value of the type.
    #[verifier::type_invariant]
    pub open spec fn wf(&self) -> bool {
        ascending(self@) && all_exits(self@)
    }

    pub fn is_empty(&self) -> (b: bool)
        ensures
            b == (self@.len() == 0),
    {
        self.0.len() == 0
    }

    /// The number of exits.
    pub fn len(&self) -> (n: usize)
        ensures
            n == self@.len(),
    {
        self.0.len()
    }

    /// The exit at position `i` in the order of the identifiers.
    pub fn get(&self, i: usize) -> (r: (StateId, &'a Instruct<'arena>))
        requires
            i < self@.len(),
        ensures
            (r.0, r.1@) == self@[i as int],
    {
        self.0[i]
    }

    /// The exits with the given one, unless an exit with its identifier is
    /// there.
    fn insert(self, id: StateId, instr: &'a Instruct<'arena>) -> (r: JumpInstructions<'a, 'arena>)
        requires
            instr@.is_exit(),
            instr@ matches SpecInstruct::Pseudo(Pseudo::Break(level)) ==> level >= 1,
            instr@ matches SpecInstruct::Pseudo(Pseudo::Continue(level)) ==> level >= 1,
        ensures
            r@ == insert_exit(self@, id, instr@),
    {
        proof {
            use_type_invariant(&self);
            lemma_insert_exit_wf(self@, id, instr@);
        }
        let ghost exits = self@;
        let JumpInstructions(mut entries) = self;
        let mut p: usize = entries.len();
        while p > 0 && entries[p - 1].0.0 > id.0
            invariant
                p <= entries.len(),
                exits == Seq::new(entries@.len(), |i: int| (entries@[i].0, entries@[i].1@)),
                insert_pos(exits, id, exits.len() as int) == insert_pos(exits, id, p as int),
            decreases p,
        {
            p -= 1;
        }
        if p > 0 && entries[p - 1].0 == id {
            assert(exits[p - 1].0 == id);
        } else {
            if p > 0 {
                assert(exits[p - 1].0 != id);
            }
            entries.insert(p, (id, instr));
        }
        proof {
            let after = Seq::new(entries@.len(), |i: int| (entries@[i].0, entries@[i].1@));
            assert(after =~= insert_exit(exits, id, instr@));
        }
        JumpInstructions(entries)
    }

    /// Collects the returns and the `Break` and `Continue` marks of a
    /// protected body, by exit identifier. `jt_gen` holds the regions that
    /// enclose the body, the body's own `TryFinally` region innermost.
    ///
    /// A `Break` or `Continue` of a level that no enclosing loop or switch
    /// answers is no exit of the body: it is passed over.
    pub fn collect(instr_seq: &'a InstrSeq<'arena>, jt_gen: &mut jump_targets::Gen) -> (r:
        JumpInstructions<'a, 'arena>)
        requires
            old(jt_gen).exit_keys@.len() + instr_seq@.len() <= u32::MAX,
        ensures
            r@ == spec_collect(
                old(jt_gen).jump_targets.regions@,
                instr_seq@,
                old(jt_gen).exit_keys@,
                instr_seq@.len() as int,
            ).1,
            final(jt_gen).exit_keys@ == spec_collect(
                old(jt_gen).jump_targets.regions@,
                instr_seq@,
                old(jt_gen).exit_keys@,
                instr_seq@.len() as int,
            ).0,
            final(jt_gen).jump_targets == old(jt_gen).jump_targets,
            r.wf(),
    {
        let ghost regions = jt_gen.jump_targets.regions@;
        let ghost keys = jt_gen.exit_keys@;
        let body = instr_seq.as_slice();
        let mut acc = JumpInstructions(Vec::new());
        let mut i: usize = 0;
        assert(acc@ =~= spec_collect(regions, instr_seq@, keys, 0).1);
        while i < body.len()
            invariant
                i <= body.len(),
                spec_instrs(body@) == instr_seq@,
                keys.len() + body.len() <= u32::MAX,
                jt_gen.jump_targets == old(jt_gen).jump_targets,
                regions == jt_gen.jump_targets.regions@,
                jt_gen.exit_keys@.len() <= keys.len() + i,
                acc@ == spec_collect(regions, instr_seq@, keys, i as int).1,
                jt_gen.exit_keys@ == spec_collect(regions, instr_seq@, keys, i as int).0,
            decreases body.len() - i,
        {
            let instr = &body[i];
            assert(instr@ == instr_seq@[i as int]);
            match instr {
                Instruct::Pseudo(Pseudo::Break(level)) => {
                    if let Some(id) = get_label_id(jt_gen, true, *level) {
                        acc = acc.insert(id, instr);
                    }
                },
                Instruct::Pseudo(Pseudo::Continue(level)) => {
                    if let Some(id) = get_label_id(jt_gen, false, *level) {
                        acc = acc.insert(id, instr);
                    }
                },
                Instruct::Opcode(Opcodes::RetC)
                | Instruct::Opcode(Opcodes::RetCSuspended)
                | Instruct::Opcode(Opcodes::RetM(_)) => {
                    let id = jt_gen.get_id_for_return();
                    acc = acc.insert(id, instr);
                },
                _ => {},
            }
            i += 1;
        }
        proof {
            lemma_collect_wf(regions, instr_seq@, keys, instr_seq@.len() as int);
        }
        acc
    }
}

/// The exit identifier of the label that a `Break` (or else a `Continue`) of
/// the given level is headed for, if the jump resolves.
fn get_label_id(jt_gen: &mut jump_targets::Gen, is_break: bool, level: isize) -> (r: Option<
    StateId,
>)
    requires
        old(jt_gen).has_room(),
    ensures
        match resolved_label(old(jt_gen).jump_targets.regions@, is_break, level as int) {
            Some(l) => r == Some(
                StateId(exit_id(old(jt_gen).exit_keys@, ExitKey::Label(l)) as u32),
            ) && final(jt_gen).exit_keys@ == with_key(old(jt_gen).exit_keys@, ExitKey::Label(l)),
            None => r is None && final(jt_gen).exit_keys@ == old(jt_gen).exit_keys@,
        },
        r is Some ==> level >= 1,
        final(jt_gen).jump_targets == old(jt_gen).jump_targets,
{
    if level <= 0 {
        return None;
    }
    match jt_gen.jump_targets.get_target_for_level(is_break, level as usize) {
        ResolvedJumpTarget::ResolvedRegular(target_label, _) => Some(
            jt_gen.get_id_for_label(target_label),
        ),
        ResolvedJumpTarget::ResolvedTryFinally(resolved) => Some(
            jt_gen.get_id_for_label(resolved.target_label),
        ),
        ResolvedJumpTarget::NotFound => None,
    }
}

/// A protected body without its returns and its `Break` and `Continue`
/// marks: the other instructions, in their order.
pub open spec fn spec_cleanup_try_body<'arena>(body: Seq<SpecInstruct<'arena>>) -> Seq<
    SpecInstruct<'arena>,
> {
    body.filter(|i: SpecInstruct<'arena>| !i.is_exit())
}

/// Removes the returns and the `Break` and `Continue` marks from a
/// protected body. The other instructions stay, in their order.
pub fn cleanup_try_body<'arena>(is: InstrSeq<'arena>) -> (r: InstrSeq<'arena>)
    ensures
        r@ == spec_cleanup_try_body(is@),
        forall|k: int| 0 <= k < r@.len() ==> !(#[trigger] r@[k]).is_exit(),
{
    let mut is = is;
    let ghost body = is@;
    let ghost keep = |i: SpecInstruct<'arena>| !i.is_exit();
    let no_exit = |instr: &Instruct<'arena>| -> (b: bool)
        ensures
            b == !instr@.is_exit(),
        { !instr.is_exit() };
    assert(InstrSeq::computes(no_exit, keep));
    is.retain(no_exit);
    proof {
        assert(is@ == body.filter(keep));
        assert forall|k: int| 0 <= k < is@.len() implies !(#[trigger] is@[k]).is_exit() by {
            body.lemma_filter_pred(keep, k);
        }
    }
    is
}

/// The code that carries on the exit `i` after a `finally` block, and the
/// state after its emission: the code of a `return`, a `break` or a
/// `continue` in an epilogue.
#[verifier::opaque]
pub open spec fn spec_emit_exit<'arena>(
    st: EmitState<'arena>,
    ss: StatementState<'arena>,
    regions: Seq<Region>,
    pos: SrcLoc,
    i: SpecInstruct<'arena>,
) -> Emitted<'arena> {
    match i {
        SpecInstruct::Pseudo(Pseudo::Break(level)) => spec_emit_break_or_continue(
            st,
            regions,
            true,
            true,
            pos,
            level as int,
        ),
        SpecInstruct::Pseudo(Pseudo::Continue(level)) => spec_emit_break_or_continue(
            st,
            regions,
            false,
            true,
            pos,
            level as int,
        ),
        _ => spec_emit_return(st, ss, regions, true),
    }
}

/// The handlers of an epilogue: for each exit a label and, behind the
/// label, the code that carries the exit on.
#[verifier::ext_equal]
pub struct Handlers<'arena> {
    /// The labels of the handlers, one for each exit, in the order of the
    /// exits.
    pub labels: Seq<Label>,
    /// The handlers, one after the other in the order of the exits.
    pub bodies: Seq<SpecInstruct<'arena>>,
    /// The state after the emission of the handlers.
    pub state: EmitState<'arena>,
}

/// The handlers of the exits from position `k` on. They are emitted from
/// the last exit to the first, so the handler of the last exit has the first
/// fresh label.
pub open spec fn spec_handlers<'arena>(
    st: EmitState<'arena>,
    ss: StatementState<'arena>,
    regions: Seq<Region>,
    pos: SrcLoc,
    exits: Exits<'arena>,
    k: int,
) -> Handlers<'arena>
    decreases exits.len() - k,
{
    if k < 0 || k >= exits.len() {
        Handlers { labels: Seq::empty(), bodies: Seq::empty(), state: st }
    } else {
        let later = spec_handlers(st, ss, regions, pos, exits, k + 1);
        let label = Label(later.state.label_gen.next);
        let emitted = spec_emit_exit(
            EmitState {
                label_gen: later.state.label_gen.advance(1),
                local_gen: later.state.local_gen,
                exit_keys: later.state.exit_keys,
            },
            ss,
            regions,
            pos,
            exits[k].1,
        );
        Handlers {
            labels: seq![label] + later.labels,
            bodies: seq![SpecInstruct::Pseudo(Pseudo::Label(label))] + emitted.instrs
                + later.bodies,
            state: emitted.state,
        }
    }
}

/// The position of the exit with identifier `id`, if there is one.
pub open spec fn exit_index<'arena>(exits: Exits<'arena>, id: int) -> Option<int> {
    if exists|j: int| 0 <= j < exits.len() && exits[j].0.0 == id {
        Some(choose|j: int| 0 <= j < exits.len() && exits[j].0.0 == id)
    } else {
        None
    }
}

/// The table of the epilogue's `Switch`: at each index from 0 to the
/// greatest exit identifier the label of the handler of the exit with that
/// identifier, or `finally_end` where no exit has it.
pub open spec fn spec_switch_targets<'arena>(
    exits: Exits<'arena>,
    labels: Seq<Label>,
    finally_end: Label,
) -> Seq<Label> {
    Seq::new(
        (exits.last().0.0 + 1) as nat,
        |id: int|
            match exit_index(exits, id) {
                Some(j) => labels[j],
                None => finally_end,
            },
    )
}

/// The epilogue of a `finally` block for the given exits of the protected
/// body, and the state after its emission.
///
/// Without exits there is no epilogue. Otherwise the epilogue tests whether
/// an exit identifier was saved, and goes on behind itself, to
/// `finally_end`, if none was. A single exit is then carried on at once.
/// Several exits are told apart by a `Switch` on the identifier, whose table
/// is dense, and each has a handler behind the `Switch`.
pub open spec fn spec_emit_finally_epilogue<'arena>(
    st: EmitState<'arena>,
    ss: StatementState<'arena>,
    regions: Seq<Region>,
    pos: SrcLoc,
    exits: Exits<'arena>,
    finally_end: Label,
) -> Emitted<'arena> {
    if exits.len() == 0 {
        Emitted { instrs: Seq::empty(), state: st }
    } else if exits.len() == 1 {
        let emitted = spec_emit_exit(
            EmitState {
                label_gen: st.label_gen,
                local_gen: st.local_gen.with_label(),
                exit_keys: st.exit_keys,
            },
            ss,
            regions,
            pos,
            exits[0].1,
        );
        Emitted {
            instrs: seq![
                SpecInstruct::Pseudo(Pseudo::SrcLoc(pos)),
                op(SpecOpcodes::IsSetL(st.local_gen.label_local())),
                op(SpecOpcodes::JmpZ(finally_end)),
            ] + emitted.instrs,
            state: emitted.state,
        }
    } else {
        let handlers = spec_handlers(st, ss, regions, pos, exits, 0);
        let l = handlers.state.local_gen.label_local();
        Emitted {
            instrs: seq![
                SpecInstruct::Pseudo(Pseudo::SrcLoc(pos)),
                op(SpecOpcodes::IsSetL(l)),
                op(SpecOpcodes::JmpZ(finally_end)),
                op(SpecOpcodes::CGetL(l)),
                op(
                    SpecOpcodes::Switch(
                        SwitchKind::Unbounded,
                        0,
                        spec_switch_targets(exits, handlers.labels, finally_end),
                    ),
                ),
            ] + handlers.bodies,
            state: EmitState {
                label_gen: handlers.state.label_gen,
                local_gen: handlers.state.local_gen.with_label(),
                exit_keys: handlers.state.exit_keys,
            },
        }
    }
}

/// The generators have what it takes to emit an epilogue for `n` exits.
pub open spec fn can_emit_epilogue<'arena>(e: Emitter<'arena>, env: Env<'arena>, n: nat) -> bool {
    &&& e.label_gen.next + 2 * n <= u32::MAX
    &&& e.local_gen.has_room()
    &&& env.jump_targets_gen.exit_keys@.len() + n <= u32::MAX
    &&& e.statement_state.num_out < u32::MAX
}

/// Carries on one exit after a `finally` block.
fn emit_instr<'arena>(
    e: &mut Emitter<'arena>,
    env: &mut Env<'arena>,
    pos: &SrcLoc,
    i: &Instruct<'arena>,
) -> (r: InstrSeq<'arena>)
    requires
        can_emit_exit(*old(e), *old(env)),
        i@.is_exit(),
        i@ matches SpecInstruct::Pseudo(Pseudo::Break(level)) ==> level >= 1,
        i@ matches SpecInstruct::Pseudo(Pseudo::Continue(level)) ==> level >= 1,
    ensures
        r@ == spec_emit_exit(
            emit_state(*old(e), *old(env)),
            old(e).statement_state,
            old(env).jump_targets_gen.jump_targets.regions@,
            *pos,
            i@,
        ).instrs,
        emit_state(*final(e), *final(env)) == spec_emit_exit(
            emit_state(*old(e), *old(env)),
            old(e).statement_state,
            old(env).jump_targets_gen.jump_targets.regions@,
            *pos,
            i@,
        ).state,
        final(e).differs_in_generators_only(*old(e)),
        final(env).differs_in_exit_ids_only(*old(env)),
        final(env).jump_targets_gen.exit_keys@.len() <= old(env).jump_targets_gen.exit_keys@.len()
            + 1,
        final(e).local_gen.has_room(),
        final(e).label_gen.next <= old(e).label_gen.next + 1,
{
    reveal(spec_emit_exit);
    match *i {
        Instruct::Pseudo(Pseudo::Break(level)) => emit_break_or_continue(
            e,
            EmitBreakOrContinueFlags::new(true, true),
            env,
            pos,
            level as Level,
        ),
        Instruct::Pseudo(Pseudo::Continue(level)) => emit_break_or_continue(
            e,
            EmitBreakOrContinueFlags::new(false, true),
            env,
            pos,
            level as Level,
        ),
        _ => emit_return(e, true, env),
    }
}

/// The table of the epilogue's `Switch`.
fn switch_targets<'a, 'arena>(
    jump_instrs: &JumpInstructions<'a, 'arena>,
    labels: &Vec<Label>,
    finally_end: Label,
) -> (r: Vec<Label>)
    requires
        jump_instrs@.len() > 0,
        labels@.len() == jump_instrs@.len(),
    ensures
        r@ == spec_switch_targets(jump_instrs@, labels@, finally_end),
{
    proof {
        use_type_invariant(jump_instrs);
    }
    let ghost exits = jump_instrs@;
    let n = jump_instrs.len();
    let limit: u64 = jump_instrs.get(n - 1).0.0 as u64 + 1;
    let mut table: Vec<Label> = Vec::new();
    let mut j: usize = 0;
    let mut id: u64 = 0;
    while id < limit
        invariant
            exits == jump_instrs@,
            ascending(exits),
            n == exits.len(),
            n > 0,
            labels@.len() == n,
            limit == exits.last().0.0 + 1,
            id <= limit,
            j <= n,
            table@.len() == id,
            forall|x: int| 0 <= x < j ==> exits[x].0.0 < id,
            forall|x: int| j <= x < n ==> exits[x].0.0 >= id,
            forall|t: int|
                0 <= t < id ==> table@[t] == (match exit_index(exits, t) {
                    Some(x) => labels@[x],
                    None => finally_end,
                }),
        decreases limit - id,
    {
        if j < n && jump_instrs.get(j).0.0 as u64 == id {
            proof {
                let x = exit_index(exits, id as int).unwrap();
                assert(x == j) by {
                    if x < j {
                    } else if x > j {
                    }
                }
            }
            table.push(labels[j]);
            j += 1;
        } else {
            assert(exit_index(exits, id as int) is None) by {
                if exists|x: int| 0 <= x < exits.len() && exits[x].0.0 == id {
                    let x = choose|x: int| 0 <= x < exits.len() && exits[x].0.0 == id;
                    if x > j {
                        assert(exits[j as int].0.0 < exits[x].0.0);
                    }
                }
            }
            table.push(finally_end);
        }
        id += 1;
    }
    assert(table@ =~= spec_switch_targets(exits, labels@, finally_end));
    table
}

/// Emits the handlers of an epilogue, from the last exit to the first:
/// their labels in the order of the exits, and their code.
fn emit_handlers<'a, 'arena>(
    e: &mut Emitter<'arena>,
    env: &mut Env<'arena>,
    pos: &SrcLoc,
    jump_instrs: &JumpInstructions<'a, 'arena>,
) -> (r: (Vec<Label>, InstrSeq<'arena>))
    requires
        can_emit_epilogue(*old(e), *old(env), jump_instrs@.len()),
    ensures
        r.0@ == spec_handlers(
            emit_state(*old(e), *old(env)),
            old(e).statement_state,
            old(env).jump_targets_gen.jump_targets.regions@,
            *pos,
            jump_instrs@,
            0,
        ).labels,
        r.1@ == spec_handlers(
            emit_state(*old(e), *old(env)),
            old(e).statement_state,
            old(env).jump_targets_gen.jump_targets.regions@,
            *pos,
            jump_instrs@,
            0,
        ).bodies,
        emit_state(*final(e), *final(env)) == spec_handlers(
            emit_state(*old(e), *old(env)),
            old(e).statement_state,
            old(env).jump_targets_gen.jump_targets.regions@,
            *pos,
            jump_instrs@,
            0,
        ).state,
        r.0@.len() == jump_instrs@.len(),
        final(e).differs_in_generators_only(*old(e)),
        final(env).differs_in_exit_ids_only(*old(env)),
        final(e).local_gen.has_room(),
{
    proof {
        use_type_invariant(jump_instrs);
    }
    let ghost st = emit_state(*old(e), *old(env));
    let ghost ss = old(e).statement_state;
    let ghost regions = old(env).jump_targets_gen.jump_targets.regions@;
    let ghost exits = jump_instrs@;
    let n = jump_instrs.len();
    let mut labels: Vec<Label> = Vec::new();
    let mut bodies = InstrSeq::empty();
    let mut k: usize = n;
    assert(emit_state(*e, *env) =~= spec_handlers(st, ss, regions, *pos, exits, n as int).state);
    while k > 0
        invariant
            k <= n,
            n == exits.len(),
            exits == jump_instrs@,
            jump_instrs.wf(),
            e.statement_state == ss,
            e.differs_in_generators_only(*old(e)),
            env.differs_in_exit_ids_only(*old(env)),
            regions == env.jump_targets_gen.jump_targets.regions@,
            can_emit_epilogue(*e, *env, k as nat),
            labels@.len() == n - k,
            labels@ == spec_handlers(st, ss, regions, *pos, exits, k as int).labels,
            bodies@ == spec_handlers(st, ss, regions, *pos, exits, k as int).bodies,
            emit_state(*e, *env) == spec_handlers(st, ss, regions, *pos, exits, k as int).state,
        decreases k,
    {
        k -= 1;
        let ghost later = spec_handlers(st, ss, regions, *pos, exits, k + 1);
        let (_, instr) = jump_instrs.get(k);
        let label = e.label_gen.next_regular();
        let ghost before = emit_state(*e, *env);
        assert(before =~= EmitState {
            label_gen: later.state.label_gen.advance(1),
            local_gen: later.state.local_gen,
            exit_keys: later.state.exit_keys,
        });
        let mut body = InstrSeq::instr(Instruct::Pseudo(Pseudo::Label(label)));
        let code = emit_instr(e, env, pos, instr);
        let ghost emitted = spec_emit_exit(before, ss, regions, *pos, exits[k as int].1);
        assert(code@ == emitted.instrs);
        body.append(code);
        body.append(bodies);
        bodies = body;
        labels.insert(0, label);
        proof {
            let now = spec_handlers(st, ss, regions, *pos, exits, k as int);
            assert(now.labels == seq![label] + later.labels);
            assert(now.bodies == seq![SpecInstruct::Pseudo(Pseudo::Label(label))] + emitted.instrs
                + later.bodies);
            assert(now.state == emitted.state);
            assert(labels@ =~= now.labels);
            assert(bodies@ =~= now.bodies);
        }
    }
    (labels, bodies)
}

/// Emits the epilogue of a `finally` block: the code behind the block that
/// carries on the exit that was under way when the block was entered.
///
/// `jump_instrs` holds the exits of the protected body. The region of the
/// body is left by the time the epilogue is emitted: `env` holds the regions
/// that enclose the whole `try` statement. `finally_end` is the label behind
/// the epilogue.
pub fn emit_finally_epilogue<'a, 'arena>(
    e: &mut Emitter<'arena>,
    env: &mut Env<'arena>,
    pos: &SrcLoc,
    jump_instrs: JumpInstructions<'a, 'arena>,
    finally_end: Label,
) -> (r: InstrSeq<'arena>)
    requires
        can_emit_epilogue(*old(e), *old(env), jump_instrs@.len()),
    ensures
        r@ == spec_emit_finally_epilogue(
            emit_state(*old(e), *old(env)),
            old(e).statement_state,
            old(env).jump_targets_gen.jump_targets.regions@,
            *pos,
            jump_instrs@,
            finally_end,
        ).instrs,
        emit_state(*final(e), *final(env)) == spec_emit_finally_epilogue(
            emit_state(*old(e), *old(env)),
            old(e).statement_state,
            old(env).jump_targets_gen.jump_targets.regions@,
            *pos,
            jump_instrs@,
            finally_end,
        ).state,
        final(e).differs_in_generators_only(*old(e)),
        final(env).differs_in_exit_ids_only(*old(env)),
{
    let ghost st = emit_state(*old(e), *old(env));
    let ghost ss = old(e).statement_state;
    let ghost regions = old(env).jump_targets_gen.jump_targets.regions@;
    let ghost exits = jump_instrs@;
    let ghost spec = spec_emit_finally_epilogue(st, ss, regions, *pos, exits, finally_end);
    proof {
        use_type_invariant(&jump_instrs);
    }
    let n = jump_instrs.len();
    if n == 0 {
        let r = InstrSeq::empty();
        assert(emit_state(*e, *env) =~= spec.state);
        r
    } else if n == 1 {
        let (_, instr) = jump_instrs.get(0);
        let mut r = InstrSeq::instr(Instruct::Pseudo(Pseudo::SrcLoc(*pos)));
        let l = e.local_gen.get_label();
        r.push(Instruct::Opcode(Opcodes::IsSetL(l)));
        r.push(Instruct::Opcode(Opcodes::JmpZ(finally_end)));
        r.append(emit_instr(e, env, pos, instr));
        assert(r@ =~= spec.instrs);
        r
    } else {
        let (labels, bodies) = emit_handlers(e, env, pos, &jump_instrs);
        let table = switch_targets(&jump_instrs, &labels, finally_end);
        let l = e.local_gen.get_label();
        let mut r = InstrSeq::instr(Instruct::Pseudo(Pseudo::SrcLoc(*pos)));
        r.push(Instruct::Opcode(Opcodes::IsSetL(l)));
        r.push(Instruct::Opcode(Opcodes::JmpZ(finally_end)));
        r.push(Instruct::Opcode(Opcodes::CGetL(l)));
        r.push(
            Instruct::Opcode(Opcodes::Switch(SwitchKind::Unbounded, 0, alloc_slice(env.arena, table))),
        );
        r.append(bodies);
        assert(r@ =~= spec.instrs);
        assert(emit_state(*e, *env) =~= spec.state);
        r
    }
}

} // verus!
