use bumpalo::Bump;
use hhbc_emit::emitter::{Emitter, ReificationLevel, ReturnTypeHint};
use hhbc_emit::env::Env;
use hhbc_emit::hhbc_ast::{
    FatalOp, Instruct, IsTypeOp, Opcodes, Pseudo, SrcLoc, SwitchKind,
};
use hhbc_emit::instruction_sequence::InstrSeq;
use hhbc_emit::iterator::IterId;
use hhbc_emit::jump_targets::StateId;
use hhbc_emit::label::Label;
use hhbc_emit::local::{Local, LocalId};
use hhbc_emit::options::{HhvmFlags, Options};
use hhbc_emit::try_finally_rewriter::{
    cleanup_try_body, emit_break_or_continue, emit_finally_epilogue, emit_jump_to_label,
    emit_return, emit_save_label_id, EmitBreakOrContinueFlags, JumpInstructions,
};

fn emitter<'a>() -> Emitter<'a> {
    Emitter::new(Options::new(HhvmFlags::empty()))
}

fn op<'a>(o: Opcodes<'a>) -> Instruct<'a> {
    Instruct::Opcode(o)
}

fn ps<'a>(p: Pseudo<'a>) -> Instruct<'a> {
    Instruct::Pseudo(p)
}

fn pos() -> SrcLoc {
    SrcLoc { line_begin: 3, col_begin: 4, line_end: 3, col_end: 9 }
}

fn srcloc<'a>() -> Instruct<'a> {
    ps(Pseudo::SrcLoc(pos()))
}

fn unnamed<'a>(idx: u32) -> Local<'a> {
    Local::Unnamed(LocalId { idx })
}

fn break_flags(in_finally_epilogue: bool) -> EmitBreakOrContinueFlags {
    EmitBreakOrContinueFlags::new(true, in_finally_epilogue)
}

fn continue_flags(in_finally_epilogue: bool) -> EmitBreakOrContinueFlags {
    EmitBreakOrContinueFlags::new(false, in_finally_epilogue)
}

const L_BRK: Label = Label(100);
const L_CONT: Label = Label(101);
const L_FIN: Label = Label(102);
const L_END: Label = Label(103);
const L_OUTER_FIN: Label = Label(104);

#[test]
fn empty_body_has_no_exits_and_no_epilogue() {
    let bump = Bump::new();
    let mut e = emitter();
    let mut env = Env::new(&bump);
    env.jump_targets_gen.with_try_finally(L_FIN, vec![]);
    let body = InstrSeq::empty();
    let exits = JumpInstructions::collect(&body, &mut env.jump_targets_gen);
    assert!(exits.is_empty());
    assert_eq!(exits.len(), 0);
    env.jump_targets_gen.revert();
    let epilogue = emit_finally_epilogue(&mut e, &mut env, &pos(), exits, L_END);
    assert!(epilogue.is_empty());
    assert_eq!(cleanup_try_body(body).to_vec(), vec![]);
    assert_eq!(e.label_gen.next, 0);
    assert_eq!(e.local_gen.counter, 0);
}

#[test]
fn return_in_try_saves_state_and_jumps_to_finally() {
    let bump = Bump::new();
    let mut e = emitter();
    let mut env = Env::new(&bump);
    env.jump_targets_gen.with_try_finally(L_FIN, vec![]);
    let emitted = emit_return(&mut e, false, &mut env);
    assert_eq!(
        emitted.to_vec(),
        vec![
            op(Opcodes::Int(0)),
            op(Opcodes::SetL(unnamed(0))),
            op(Opcodes::PopC),
            op(Opcodes::SetL(unnamed(1))),
            op(Opcodes::PopC),
            op(Opcodes::Jmp(L_FIN)),
            op(Opcodes::RetC),
        ]
    );
    assert_eq!(e.local_gen.label, Some(unnamed(0)));
    assert_eq!(e.local_gen.retval, Some(unnamed(1)));
}

#[test]
fn simple_return_in_try_end_to_end() {
    let bump = Bump::new();
    let mut e = emitter();
    e.statement_state.verify_return = Some(ReturnTypeHint {
        level: ReificationLevel::Not,
        nullable: false,
        type_structure: InstrSeq::empty(),
    });
    e.statement_state.verify_out = InstrSeq::instr(op(Opcodes::Nop));
    let mut env = Env::new(&bump);
    env.jump_targets_gen.with_try_finally(L_FIN, vec![]);

    let mut body = InstrSeq::instr(op(Opcodes::Int(42)));
    body.append(emit_return(&mut e, false, &mut env));
    let exits = JumpInstructions::collect(&body, &mut env.jump_targets_gen);
    assert_eq!(exits.len(), 1);
    assert_eq!(exits.get(0), (StateId(0), &op(Opcodes::RetC)));

    env.jump_targets_gen.revert();
    let epilogue = emit_finally_epilogue(&mut e, &mut env, &pos(), exits, L_END);
    assert_eq!(
        epilogue.to_vec(),
        vec![
            srcloc(),
            op(Opcodes::IsSetL(unnamed(0))),
            op(Opcodes::JmpZ(L_END)),
            op(Opcodes::CGetL(unnamed(1))),
            op(Opcodes::VerifyRetTypeC),
            op(Opcodes::Nop),
            op(Opcodes::RetC),
        ]
    );

    let cleaned = cleanup_try_body(body);
    assert_eq!(
        cleaned.to_vec(),
        vec![
            op(Opcodes::Int(42)),
            op(Opcodes::Int(0)),
            op(Opcodes::SetL(unnamed(0))),
            op(Opcodes::PopC),
            op(Opcodes::SetL(unnamed(1))),
            op(Opcodes::PopC),
            op(Opcodes::Jmp(L_FIN)),
        ]
    );
}

#[test]
fn cleanup_keeps_the_other_instructions_in_order() {
    let body = InstrSeq::from_vec(vec![
        op(Opcodes::Int(42)),
        op(Opcodes::RetC),
        ps(Pseudo::Break(1)),
        op(Opcodes::PopC),
        ps(Pseudo::Continue(2)),
        op(Opcodes::RetCSuspended),
        op(Opcodes::RetM(3)),
        ps(Pseudo::Label(L_END)),
    ]);
    let cleaned = cleanup_try_body(body);
    assert_eq!(
        cleaned.to_vec(),
        vec![op(Opcodes::Int(42)), op(Opcodes::PopC), ps(Pseudo::Label(L_END))]
    );
}

#[test]
fn cleanup_is_idempotent() {
    let body = InstrSeq::from_vec(vec![
        op(Opcodes::Int(1)),
        op(Opcodes::RetC),
        op(Opcodes::Dup),
        ps(Pseudo::Break(1)),
    ]);
    let once = cleanup_try_body(body);
    let twice = cleanup_try_body(once.duplicate());
    assert_eq!(once, twice);
    assert!(once.to_vec().iter().all(|i| !i.is_exit()));
}

#[test]
fn break_in_loop_inside_try_finally() {
    let bump = Bump::new();
    let mut e = emitter();
    let mut env = Env::new(&bump);
    env.jump_targets_gen.with_loop(L_BRK, L_CONT, vec![]);
    env.jump_targets_gen.with_try_finally(L_FIN, vec![]);

    let in_try = emit_break_or_continue(&mut e, break_flags(false), &mut env, &pos(), 1);
    assert_eq!(
        in_try.to_vec(),
        vec![
            op(Opcodes::Int(0)),
            op(Opcodes::SetL(unnamed(0))),
            op(Opcodes::PopC),
            op(Opcodes::Jmp(L_FIN)),
            srcloc(),
            ps(Pseudo::Break(1)),
        ]
    );

    let exits = JumpInstructions::collect(&in_try, &mut env.jump_targets_gen);
    assert_eq!(exits.len(), 1);
    assert_eq!(exits.get(0), (StateId(0), &ps(Pseudo::Break(1))));

    env.jump_targets_gen.revert();
    let epilogue = emit_finally_epilogue(&mut e, &mut env, &pos(), exits, L_END);
    assert_eq!(
        epilogue.to_vec(),
        vec![
            srcloc(),
            op(Opcodes::IsSetL(unnamed(0))),
            op(Opcodes::JmpZ(L_END)),
            op(Opcodes::UnsetL(unnamed(0))),
            srcloc(),
            op(Opcodes::Jmp(L_BRK)),
        ]
    );
}

#[test]
fn break_two_levels_across_loop_and_finally() {
    let bump = Bump::new();
    let mut e = emitter();
    let mut env = Env::new(&bump);
    env.jump_targets_gen.with_loop(L_BRK, L_CONT, vec![]);
    env.jump_targets_gen.with_try_finally(L_FIN, vec![]);
    env.jump_targets_gen.with_loop(Label(7), Label(8), vec![IterId { idx: 2 }]);

    let resolved = env.jump_targets_gen.jump_targets().get_target_for_level(true, 2);
    match resolved {
        hhbc_emit::jump_targets::ResolvedJumpTarget::ResolvedTryFinally(r) => {
            assert_eq!(r.target_label, L_BRK);
            assert_eq!(r.finally_label, L_FIN);
            assert_eq!(r.adjusted_level, 1);
            assert_eq!(r.iterators_to_release, vec![IterId { idx: 2 }]);
        }
        other => panic!("unexpected resolution {:?}", other),
    }

    let in_try = emit_break_or_continue(&mut e, break_flags(false), &mut env, &pos(), 2);
    assert_eq!(
        in_try.to_vec(),
        vec![
            op(Opcodes::Int(0)),
            op(Opcodes::SetL(unnamed(0))),
            op(Opcodes::PopC),
            op(Opcodes::IterBreak(L_FIN, &[IterId { idx: 2 }])),
            srcloc(),
            ps(Pseudo::Break(1)),
        ]
    );

    env.jump_targets_gen.revert();
    let exits = JumpInstructions::collect(&in_try, &mut env.jump_targets_gen);
    assert_eq!(exits.get(0), (StateId(0), &ps(Pseudo::Break(1))));
    env.jump_targets_gen.revert();
    let epilogue = emit_finally_epilogue(&mut e, &mut env, &pos(), exits, L_END);
    assert_eq!(
        epilogue.to_vec(),
        vec![
            srcloc(),
            op(Opcodes::IsSetL(unnamed(0))),
            op(Opcodes::JmpZ(L_END)),
            op(Opcodes::UnsetL(unnamed(0))),
            srcloc(),
            op(Opcodes::Jmp(L_BRK)),
        ]
    );
}

#[test]
fn mixed_exits_with_a_gap() {
    let bump = Bump::new();
    let mut e = emitter();
    e.label_gen.next = 10;
    let mut env = Env::new(&bump);
    env.jump_targets_gen.with_loop(L_BRK, L_CONT, vec![]);
    env.jump_targets_gen.with_try_finally(L_FIN, vec![]);
    assert_eq!(env.jump_targets_gen.get_id_for_label(L_CONT), StateId(0));
    assert_eq!(env.jump_targets_gen.get_id_for_label(L_BRK), StateId(1));
    assert_eq!(env.jump_targets_gen.get_id_for_label(Label(55)), StateId(2));

    let body = InstrSeq::from_vec(vec![
        op(Opcodes::RetC),
        ps(Pseudo::Break(1)),
        op(Opcodes::Nop),
        ps(Pseudo::Continue(1)),
        op(Opcodes::RetM(2)),
    ]);
    let exits = JumpInstructions::collect(&body, &mut env.jump_targets_gen);
    assert_eq!(exits.len(), 3);
    assert_eq!(exits.get(0), (StateId(0), &ps(Pseudo::Continue(1))));
    assert_eq!(exits.get(1), (StateId(1), &ps(Pseudo::Break(1))));
    assert_eq!(exits.get(2), (StateId(3), &op(Opcodes::RetC)));

    env.jump_targets_gen.revert();
    let epilogue = emit_finally_epilogue(&mut e, &mut env, &pos(), exits, L_END);
    let (h0, h1, h3) = (Label(12), Label(11), Label(10));
    assert_eq!(
        epilogue.to_vec(),
        vec![
            srcloc(),
            op(Opcodes::IsSetL(unnamed(1))),
            op(Opcodes::JmpZ(L_END)),
            op(Opcodes::CGetL(unnamed(1))),
            op(Opcodes::Switch(SwitchKind::Unbounded, 0, &[h0, h1, L_END, h3])),
            ps(Pseudo::Label(h0)),
            op(Opcodes::UnsetL(unnamed(1))),
            srcloc(),
            op(Opcodes::Jmp(L_CONT)),
            ps(Pseudo::Label(h1)),
            op(Opcodes::UnsetL(unnamed(1))),
            srcloc(),
            op(Opcodes::Jmp(L_BRK)),
            ps(Pseudo::Label(h3)),
            op(Opcodes::CGetL(unnamed(0))),
            op(Opcodes::RetC),
        ]
    );
    assert_eq!(e.label_gen.next, 13);
}

#[test]
fn two_exits_with_ids_zero_and_three() {
    let bump = Bump::new();
    let mut e = emitter();
    let mut env = Env::new(&bump);
    env.jump_targets_gen.with_loop(L_BRK, L_CONT, vec![]);
    env.jump_targets_gen.with_try_finally(L_FIN, vec![]);
    assert_eq!(env.jump_targets_gen.get_id_for_label(L_BRK), StateId(0));
    assert_eq!(env.jump_targets_gen.get_id_for_label(Label(55)), StateId(1));
    assert_eq!(env.jump_targets_gen.get_id_for_label(Label(56)), StateId(2));
    let body = InstrSeq::from_vec(vec![ps(Pseudo::Break(1)), op(Opcodes::RetC)]);
    let exits = JumpInstructions::collect(&body, &mut env.jump_targets_gen);
    assert_eq!(exits.len(), 2);
    assert_eq!(exits.get(0).0, StateId(0));
    assert_eq!(exits.get(1).0, StateId(3));
    env.jump_targets_gen.revert();
    let epilogue = emit_finally_epilogue(&mut e, &mut env, &pos(), exits, L_END).to_vec();
    match epilogue[4] {
        Instruct::Opcode(Opcodes::Switch(SwitchKind::Unbounded, 0, targets)) => {
            assert_eq!(targets.len(), 4);
            assert_eq!(targets, &[Label(1), L_END, L_END, Label(0)]);
        }
        other => panic!("unexpected instruction {:?}", other),
    }
    assert_eq!(epilogue[5], ps(Pseudo::Label(Label(1))));
}

#[test]
fn break_past_available_loops_is_fatal() {
    let bump = Bump::new();
    let mut e = emitter();
    let mut env = Env::new(&bump);
    env.jump_targets_gen.with_loop(L_BRK, L_CONT, vec![]);
    env.jump_targets_gen.with_loop(Label(7), Label(8), vec![]);
    let emitted = emit_break_or_continue(&mut e, break_flags(false), &mut env, &pos(), 5);
    assert_eq!(
        emitted.to_vec(),
        vec![
            srcloc(),
            op(Opcodes::String(b"Cannot break/continue 5 levels")),
            op(Opcodes::Fatal(FatalOp::Runtime)),
        ]
    );
    assert!(env.jump_targets_gen.exit_keys.is_empty());
    assert_eq!(e.local_gen.label, None);
    assert_eq!(e.local_gen.counter, 0);
    assert_eq!(e.label_gen.next, 0);
}

#[test]
fn fatal_message_names_one_level_in_the_singular() {
    let bump = Bump::new();
    let mut e = emitter();
    let mut env = Env::new(&bump);
    let emitted = emit_break_or_continue(&mut e, continue_flags(false), &mut env, &pos(), 1);
    assert_eq!(
        emitted.to_vec()[1],
        op(Opcodes::String(b"Cannot break/continue 1 level"))
    );
    let emitted = emit_break_or_continue(&mut e, continue_flags(false), &mut env, &pos(), 120);
    assert_eq!(
        emitted.to_vec()[1],
        op(Opcodes::String(b"Cannot break/continue 120 levels"))
    );
    let emitted = emit_break_or_continue(&mut e, continue_flags(false), &mut env, &pos(), 0);
    assert_eq!(
        emitted.to_vec()[1],
        op(Opcodes::String(b"Cannot break/continue 0 levels"))
    );
}

#[test]
fn nested_try_finally_return_hops_through_both() {
    let bump = Bump::new();
    let mut e = emitter();
    let mut env = Env::new(&bump);
    env.jump_targets_gen.with_try_finally(L_OUTER_FIN, vec![]);
    env.jump_targets_gen.with_try_finally(L_FIN, vec![]);

    let inner_body = emit_return(&mut e, false, &mut env);
    let inner_exits = JumpInstructions::collect(&inner_body, &mut env.jump_targets_gen);
    assert_eq!(inner_exits.len(), 1);
    env.jump_targets_gen.revert();
    let inner_epilogue =
        emit_finally_epilogue(&mut e, &mut env, &pos(), inner_exits, L_END);
    assert_eq!(
        inner_epilogue.to_vec(),
        vec![
            srcloc(),
            op(Opcodes::IsSetL(unnamed(0))),
            op(Opcodes::JmpZ(L_END)),
            op(Opcodes::CGetL(unnamed(1))),
            op(Opcodes::Int(0)),
            op(Opcodes::SetL(unnamed(0))),
            op(Opcodes::PopC),
            op(Opcodes::SetL(unnamed(1))),
            op(Opcodes::PopC),
            op(Opcodes::Jmp(L_OUTER_FIN)),
            op(Opcodes::RetC),
        ]
    );

    let outer_exits = JumpInstructions::collect(&inner_epilogue, &mut env.jump_targets_gen);
    assert_eq!(outer_exits.len(), 1);
    assert_eq!(outer_exits.get(0), (StateId(0), &op(Opcodes::RetC)));
    env.jump_targets_gen.revert();
    let outer_epilogue =
        emit_finally_epilogue(&mut e, &mut env, &pos(), outer_exits, Label(200));
    assert_eq!(
        outer_epilogue.to_vec(),
        vec![
            srcloc(),
            op(Opcodes::IsSetL(unnamed(0))),
            op(Opcodes::JmpZ(Label(200))),
            op(Opcodes::CGetL(unnamed(1))),
            op(Opcodes::RetC),
        ]
    );
}

#[test]
fn return_in_loop_in_try_releases_iterator_on_the_way() {
    let bump = Bump::new();
    let mut e = emitter();
    let mut env = Env::new(&bump);
    env.jump_targets_gen.with_try_finally(L_FIN, vec![]);
    env.jump_targets_gen.with_loop(L_BRK, L_CONT, vec![IterId { idx: 0 }]);
    let emitted = emit_return(&mut e, false, &mut env).to_vec();
    assert_eq!(emitted[5], op(Opcodes::IterBreak(L_FIN, &[IterId { idx: 0 }])));
    assert_eq!(emitted[6], op(Opcodes::RetC));
    assert_eq!(emitted.len(), 7);
}

#[test]
fn return_outside_finally_frees_live_iterators_innermost_first() {
    let bump = Bump::new();
    let mut e = emitter();
    e.statement_state.num_out = 2;
    let mut env = Env::new(&bump);
    env.jump_targets_gen.with_loop(Label(1), Label(2), vec![IterId { idx: 9 }]);
    env.jump_targets_gen.with_function();
    env.jump_targets_gen.with_loop(L_BRK, L_CONT, vec![IterId { idx: 0 }]);
    env.jump_targets_gen.with_switch(Label(3));
    env.jump_targets_gen.with_loop(Label(4), Label(5), vec![IterId { idx: 1 }, IterId { idx: 2 }]);
    let emitted = emit_return(&mut e, false, &mut env);
    assert_eq!(
        emitted.to_vec(),
        vec![
            op(Opcodes::IterFree(IterId { idx: 1 })),
            op(Opcodes::IterFree(IterId { idx: 2 })),
            op(Opcodes::IterFree(IterId { idx: 0 })),
            op(Opcodes::RetM(3)),
        ]
    );
}

#[test]
fn reified_nullable_return_type_lets_null_through() {
    let bump = Bump::new();
    let mut e = emitter();
    e.label_gen.next = 4;
    e.statement_state.verify_return = Some(ReturnTypeHint {
        level: ReificationLevel::Definitely,
        nullable: true,
        type_structure: InstrSeq::instr(op(Opcodes::Dict(b"A_0"))),
    });
    let mut env = Env::new(&bump);
    let emitted = emit_return(&mut e, false, &mut env);
    assert_eq!(
        emitted.to_vec(),
        vec![
            op(Opcodes::Dup),
            op(Opcodes::IsTypeC(IsTypeOp::Null)),
            op(Opcodes::JmpNZ(Label(4))),
            op(Opcodes::Dict(b"A_0")),
            op(Opcodes::VerifyRetTypeTS),
            ps(Pseudo::Label(Label(4))),
            op(Opcodes::RetC),
        ]
    );
    assert_eq!(e.label_gen.next, 5);
}

#[test]
fn return_type_checks_by_reification_level() {
    let bump = Bump::new();
    let ts = || InstrSeq::instr(op(Opcodes::Dict(b"A_1")));
    let cases = vec![
        (ReificationLevel::Unconstrained, false, vec![op(Opcodes::RetC)]),
        (ReificationLevel::Not, true, vec![op(Opcodes::VerifyRetTypeC), op(Opcodes::RetC)]),
        (
            ReificationLevel::Maybe,
            true,
            vec![op(Opcodes::Dict(b"A_1")), op(Opcodes::VerifyRetTypeTS), op(Opcodes::RetC)],
        ),
        (
            ReificationLevel::Definitely,
            false,
            vec![op(Opcodes::Dict(b"A_1")), op(Opcodes::VerifyRetTypeTS), op(Opcodes::RetC)],
        ),
    ];
    for (level, nullable, expected) in cases {
        let mut e = emitter();
        e.statement_state.verify_return =
            Some(ReturnTypeHint { level, nullable, type_structure: ts() });
        let mut env = Env::new(&bump);
        assert_eq!(emit_return(&mut e, false, &mut env).to_vec(), expected);
        assert_eq!(e.label_gen.next, 0);
    }
}

#[test]
fn collect_keeps_the_first_exit_of_each_identifier() {
    let bump = Bump::new();
    let mut env = Env::new(&bump);
    env.jump_targets_gen.with_switch(L_BRK);
    env.jump_targets_gen.with_try_finally(L_FIN, vec![]);
    let body = InstrSeq::from_vec(vec![
        op(Opcodes::RetM(2)),
        ps(Pseudo::Continue(1)),
        op(Opcodes::RetC),
        ps(Pseudo::Break(1)),
        ps(Pseudo::Break(4)),
        ps(Pseudo::Break(0)),
        ps(Pseudo::Continue(-1)),
    ]);
    let exits = JumpInstructions::collect(&body, &mut env.jump_targets_gen);
    assert_eq!(exits.len(), 2);
    assert_eq!(exits.get(0), (StateId(0), &op(Opcodes::RetM(2))));
    assert_eq!(exits.get(1), (StateId(1), &ps(Pseudo::Continue(1))));
    assert_eq!(env.jump_targets_gen.exit_keys.len(), 2);
}

#[test]
fn collect_twice_with_fresh_allocators_agrees() {
    let bump = Bump::new();
    let body = InstrSeq::from_vec(vec![
        ps(Pseudo::Continue(1)),
        op(Opcodes::RetC),
        ps(Pseudo::Break(1)),
        op(Opcodes::RetC),
    ]);
    let mut first = Env::new(&bump);
    first.jump_targets_gen.with_loop(L_BRK, L_CONT, vec![]);
    first.jump_targets_gen.with_try_finally(L_FIN, vec![]);
    let mut second = Env::new(&bump);
    second.jump_targets_gen.with_loop(L_BRK, L_CONT, vec![]);
    second.jump_targets_gen.with_try_finally(L_FIN, vec![]);
    let a = JumpInstructions::collect(&body, &mut first.jump_targets_gen);
    let b = JumpInstructions::collect(&body, &mut second.jump_targets_gen);
    assert_eq!(a.len(), 3);
    assert_eq!(a, b);
    for i in 0..a.len() {
        assert_eq!(a.get(i).0, StateId(i as u32));
    }
}

#[test]
fn jump_to_label_uses_iter_break_only_with_iterators() {
    let bump = Bump::new();
    assert_eq!(
        emit_jump_to_label(&bump, L_BRK, vec![]).to_vec(),
        vec![op(Opcodes::Jmp(L_BRK))]
    );
    assert_eq!(
        emit_jump_to_label(&bump, L_BRK, vec![IterId { idx: 3 }, IterId { idx: 1 }]).to_vec(),
        vec![op(Opcodes::IterBreak(L_BRK, &[IterId { idx: 3 }, IterId { idx: 1 }]))]
    );
}

#[test]
fn save_label_id_stores_the_identifier_in_the_label_local() {
    let mut e = emitter();
    e.local_gen.counter = 5;
    let saved = emit_save_label_id(&mut e.local_gen, StateId(7));
    assert_eq!(
        saved.to_vec(),
        vec![op(Opcodes::Int(7)), op(Opcodes::SetL(unnamed(5))), op(Opcodes::PopC)]
    );
    let again = emit_save_label_id(&mut e.local_gen, StateId(8));
    assert_eq!(again.to_vec()[1], op(Opcodes::SetL(unnamed(5))));
    assert_eq!(e.local_gen.counter, 6);
}

#[test]
fn continue_in_epilogue_of_deeper_level_keeps_the_label_local() {
    let bump = Bump::new();
    let mut e = emitter();
    let mut env = Env::new(&bump);
    env.jump_targets_gen.with_loop(L_BRK, L_CONT, vec![IterId { idx: 0 }]);
    env.jump_targets_gen.with_loop(Label(7), Label(8), vec![IterId { idx: 1 }]);
    let emitted = emit_break_or_continue(&mut e, continue_flags(true), &mut env, &pos(), 2);
    assert_eq!(
        emitted.to_vec(),
        vec![srcloc(), op(Opcodes::IterBreak(L_CONT, &[IterId { idx: 1 }]))]
    );
    let emitted = emit_break_or_continue(&mut e, break_flags(true), &mut env, &pos(), 2);
    assert_eq!(
        emitted.to_vec(),
        vec![srcloc(), op(Opcodes::IterBreak(L_BRK, &[IterId { idx: 1 }, IterId { idx: 0 }]))]
    );
    assert_eq!(e.local_gen.label, None);
}

#[test]
fn flags_hold_their_bits() {
    let f = EmitBreakOrContinueFlags::new(true, true);
    assert_eq!(f.bits, 0b11);
    assert!(f.contains(EmitBreakOrContinueFlags::new(true, false)));
    assert!(f.contains(EmitBreakOrContinueFlags::new(false, true)));
    let g = EmitBreakOrContinueFlags::new(false, true);
    assert_eq!(g.bits, 0b10);
    assert!(!g.contains(EmitBreakOrContinueFlags::new(true, false)));
    assert_eq!(EmitBreakOrContinueFlags::from_bits_truncate(0xff).bits, 0b11);
    assert_eq!(
        EmitBreakOrContinueFlags::new(true, false).union(g),
        EmitBreakOrContinueFlags::new(true, true)
    );
}

#[test]
fn epilogue_defines_each_handler_label_once() {
    let bump = Bump::new();
    let mut e = emitter();
    e.label_gen.next = 20;
    e.statement_state.verify_return = Some(ReturnTypeHint {
        level: ReificationLevel::Definitely,
        nullable: true,
        type_structure: InstrSeq::instr(ps(Pseudo::Label(Label(3)))),
    });
    let mut env = Env::new(&bump);
    env.jump_targets_gen.with_loop(L_BRK, L_CONT, vec![]);
    env.jump_targets_gen.with_try_finally(L_FIN, vec![]);
    let body = InstrSeq::from_vec(vec![
        ps(Pseudo::Break(1)),
        op(Opcodes::RetC),
        ps(Pseudo::Continue(1)),
    ]);
    let exits = JumpInstructions::collect(&body, &mut env.jump_targets_gen);
    assert_eq!(exits.len(), 3);
    env.jump_targets_gen.revert();
    let epilogue = emit_finally_epilogue(&mut e, &mut env, &pos(), exits, L_END).to_vec();
    let targets = match epilogue[4] {
        Instruct::Opcode(Opcodes::Switch(_, _, targets)) => targets,
        other => panic!("unexpected instruction {:?}", other),
    };
    assert_eq!(targets.len(), 3);
    for target in targets {
        assert_ne!(*target, L_END);
        let definitions =
            epilogue.iter().filter(|i| **i == ps(Pseudo::Label(*target))).count();
        assert_eq!(definitions, 1);
    }
    assert_eq!(targets, &[Label(23), Label(21), Label(20)]);
    assert_eq!(e.label_gen.next, 24);
}
