use hhbc_emit::hhbc_ast::{Instruct, Opcodes, Pseudo};
use hhbc_emit::instruction_sequence::InstrSeq;
use hhbc_emit::label::Label;

fn op<'a>(o: Opcodes<'a>) -> Instruct<'a> {
    Instruct::Opcode(o)
}

#[test]
fn gather_flattens_in_order() {
    let parts = vec![
        InstrSeq::instr(op(Opcodes::Int(1))),
        InstrSeq::empty(),
        InstrSeq::from_vec(vec![op(Opcodes::Int(2)), op(Opcodes::Int(3))]),
        InstrSeq::gather(vec![InstrSeq::instr(op(Opcodes::PopC)), InstrSeq::empty()]),
    ];
    let all = InstrSeq::gather(parts);
    assert_eq!(all.len(), 4);
    assert_eq!(
        all.to_vec(),
        vec![op(Opcodes::Int(1)), op(Opcodes::Int(2)), op(Opcodes::Int(3)), op(Opcodes::PopC)]
    );
    assert!(InstrSeq::gather(vec![]).is_empty());
}

#[test]
fn append_extend_push_and_set() {
    let mut s = InstrSeq::empty();
    assert!(s.is_empty());
    s.push(op(Opcodes::Dup));
    let tail = InstrSeq::from_vec(vec![op(Opcodes::Null), op(Opcodes::True)]);
    s.extend(&tail);
    s.append(tail);
    assert_eq!(
        s.as_slice(),
        &[
            op(Opcodes::Dup),
            op(Opcodes::Null),
            op(Opcodes::True),
            op(Opcodes::Null),
            op(Opcodes::True)
        ]
    );
    s.set(1, op(Opcodes::False));
    assert_eq!(s.get(1), op(Opcodes::False));
    assert_eq!(s.get(3), op(Opcodes::Null));
    assert_eq!(s.duplicate(), s);
}

#[test]
fn retain_filters_in_place() {
    let mut s = InstrSeq::from_vec(vec![
        op(Opcodes::Jmp(Label(1))),
        Instruct::Pseudo(Pseudo::Label(Label(1))),
        op(Opcodes::PopC),
        Instruct::Pseudo(Pseudo::Label(Label(2))),
    ]);
    s.retain(|i| !matches!(i, Instruct::Pseudo(Pseudo::Label(_))));
    assert_eq!(s.to_vec(), vec![op(Opcodes::Jmp(Label(1))), op(Opcodes::PopC)]);
    s.retain(|_| false);
    assert!(s.is_empty());
}
