use hhbc_emit::ast_defs;
use hhbc_emit::ast_defs::Abstraction::{Abstract, Concrete};
use hhbc_emit::hhbc_ast::{
    ClassishKind, FCallArgsFlags, FcallArgs, Instruct, IterArgs, LocalRange, Opcodes, Pseudo,
    SwitchKind, Targets, Visibility,
};
use hhbc_emit::iterator::IterId;
use hhbc_emit::label::Label;
use hhbc_emit::local::{Local, LocalId};

fn fca<'a>(target: Option<Label>) -> FcallArgs<'a> {
    FcallArgs::new(
        FCallArgsFlags { bits: 0 },
        1,
        2,
        &[true, false],
        &[],
        target,
        Some("ctx"),
    )
}

#[test]
fn fcall_args_keep_their_operands() {
    let args = fca(Some(Label(4)));
    assert_eq!(args.num_rets, 1);
    assert_eq!(args.num_args, 2);
    assert_eq!(args.inouts, &[true, false]);
    assert!(args.readonly.is_empty());
    assert_eq!(args.async_eager_target, Some(Label(4)));
    assert_eq!(args.context, Some(&b"ctx"[..]));
    let plain = FcallArgs::new(FCallArgsFlags { bits: 3 }, 0, 0, &[], &[], None, None);
    assert_eq!(plain.context, None);
    assert_eq!(plain.flags.bits, 3);
}

#[test]
fn fcall_args_targets() {
    let mut args = fca(Some(Label(4)));
    assert_eq!(args.targets(), &[Label(4)]);
    args.targets_mut()[0] = Label(9);
    assert_eq!(args.async_eager_target, Some(Label(9)));
    assert_eq!(args.num_args, 2);
    let mut none = fca(None);
    assert!(none.targets().is_empty());
    assert!(none.targets_mut().is_empty());
}

#[test]
fn instruction_targets() {
    let table = [Label(1), Label(2), Label(1)];
    let iter_args = IterArgs {
        iter_id: IterId { idx: 0 },
        key_id: None,
        val_id: Local::Unnamed(LocalId { idx: 1 }),
    };
    let cases: Vec<(Instruct, Vec<Label>)> = vec![
        (Instruct::Opcode(Opcodes::Jmp(Label(3))), vec![Label(3)]),
        (Instruct::Opcode(Opcodes::JmpZ(Label(4))), vec![Label(4)]),
        (Instruct::Opcode(Opcodes::JmpNZ(Label(5))), vec![Label(5)]),
        (
            Instruct::Opcode(Opcodes::Switch(SwitchKind::Unbounded, 0, &table)),
            vec![Label(1), Label(2), Label(1)],
        ),
        (Instruct::Opcode(Opcodes::IterInit(iter_args, Label(6))), vec![Label(6)]),
        (Instruct::Opcode(Opcodes::IterNext(iter_args, Label(7))), vec![Label(7)]),
        (
            Instruct::Opcode(Opcodes::IterBreak(Label(8), &[IterId { idx: 0 }])),
            vec![Label(8)],
        ),
        (Instruct::Opcode(Opcodes::FCallFuncD(fca(Some(Label(9))), b"f")), vec![Label(9)]),
        (Instruct::Opcode(Opcodes::FCallFuncD(fca(None), b"f")), vec![]),
        (Instruct::Opcode(Opcodes::RetC), vec![]),
        (Instruct::Pseudo(Pseudo::Label(Label(10))), vec![]),
        (Instruct::Pseudo(Pseudo::Break(1)), vec![]),
        (Instruct::Pseudo(Pseudo::TryCatchBegin), vec![]),
    ];
    for (instr, expected) in cases {
        assert_eq!(instr.targets(), expected.as_slice());
    }
}

#[test]
fn exits_are_returns_breaks_and_continues() {
    assert!(Instruct::Opcode(Opcodes::RetC).is_exit());
    assert!(Instruct::Opcode(Opcodes::RetCSuspended).is_exit());
    assert!(Instruct::Opcode(Opcodes::RetM(2)).is_exit());
    assert!(Instruct::Pseudo(Pseudo::Break(1)).is_exit());
    assert!(Instruct::Pseudo(Pseudo::Continue(3)).is_exit());
    assert!(!Instruct::Opcode(Opcodes::Jmp(Label(0))).is_exit());
    assert!(!Instruct::Pseudo(Pseudo::Label(Label(0))).is_exit());
}

#[test]
fn classish_kind_from_syntax() {
    assert_eq!(ClassishKind::from(ast_defs::ClassishKind::Cclass(Concrete)), ClassishKind::Class);
    assert_eq!(ClassishKind::from(ast_defs::ClassishKind::Cclass(Abstract)), ClassishKind::Class);
    assert_eq!(ClassishKind::from(ast_defs::ClassishKind::Cinterface), ClassishKind::Interface);
    assert_eq!(ClassishKind::from(ast_defs::ClassishKind::Ctrait), ClassishKind::Trait);
    assert_eq!(ClassishKind::from(ast_defs::ClassishKind::Cenum), ClassishKind::Enum);
    assert_eq!(
        ClassishKind::from(ast_defs::ClassishKind::CenumClass(Abstract)),
        ClassishKind::EnumClass
    );
}

#[test]
fn visibility_from_syntax_and_as_text() {
    let cases = [
        (ast_defs::Visibility::Private, Visibility::Private, "private"),
        (ast_defs::Visibility::Public, Visibility::Public, "public"),
        (ast_defs::Visibility::Protected, Visibility::Protected, "protected"),
        (ast_defs::Visibility::Internal, Visibility::Internal, "internal"),
    ];
    for (syntax, expected, text) in cases {
        let v = Visibility::from(syntax);
        assert_eq!(v, expected);
        let s: &str = v.as_ref();
        assert_eq!(s, text);
    }
}

#[test]
fn default_local_range_is_empty() {
    assert_eq!(LocalRange::default(), LocalRange { start: LocalId { idx: 0 }, len: 0 });
}
