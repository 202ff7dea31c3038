//! Code that raises a fatal error when it is run.

use crate::arena::alloc_str;
use crate::hhbc_ast::{FatalOp, Instruct, Opcodes, Pseudo, SpecInstruct, SpecOpcodes, SrcLoc};
use crate::instruction_sequence::InstrSeq;
use crate::jump_targets::Level;
use crate::string_utils::{decimal, decimal_string};
use vstd::prelude::*;
use vstd::string::StringExecFns;
use vstd::utf8::encode_utf8;

verus! {

/// The text of the error for a `break` or `continue` that asks for more
/// levels than there are.
pub open spec fn break_continue_message(level: nat) -> Seq<char> {
    "Cannot break/continue "@ + decimal(level) + " level"@ + if level == 1 {
        ""@
    } else {
        "s"@
    }
}

/// The code that raises an error of the given kind and text at run time.
pub open spec fn spec_emit_fatal<'arena>(op: FatalOp, pos: SrcLoc, msg: Seq<char>) -> Seq<
    SpecInstruct<'arena>,
> {
    seq![
        SpecInstruct::Pseudo(Pseudo::SrcLoc(pos)),
        SpecInstruct::Opcode(SpecOpcodes::String(encode_utf8(msg))),
        SpecInstruct::Opcode(SpecOpcodes::Fatal(op)),
    ]
}

/// The code that raises an error of the given kind and text at run time: a
/// position marker, the text, and the `Fatal`.
pub fn emit_fatal<'arena>(alloc: &'arena bumpalo::Bump, op: FatalOp, pos: &SrcLoc, msg: &str) -> (r:
    InstrSeq<'arena>)
    ensures
        r@ == spec_emit_fatal::<'arena>(op, *pos, msg@),
{
    let text = alloc_str(alloc, msg);
    let mut r = InstrSeq::instr(Instruct::Pseudo(Pseudo::SrcLoc(*pos)));
    r.push(Instruct::Opcode(Opcodes::String(text.as_bytes())));
    r.push(Instruct::Opcode(Opcodes::Fatal(op)));
    assert(r@ =~= spec_emit_fatal::<'arena>(op, *pos, msg@));
    r
}

/// The code that raises a runtime error with the given text.
pub fn emit_fatal_runtime<'arena>(alloc: &'arena bumpalo::Bump, pos: &SrcLoc, msg: &str) -> (r:
    InstrSeq<'arena>)
    ensures
        r@ == spec_emit_fatal::<'arena>(FatalOp::Runtime, *pos, msg@),
{
    emit_fatal(alloc, FatalOp::Runtime, pos, msg)
}

/// The code for a `break` or `continue` of a level that no enclosing loop
/// or switch answers: a runtime error that names the level.
pub fn emit_fatal_for_break_continue<'arena>(
    alloc: &'arena bumpalo::Bump,
    pos: &SrcLoc,
    level: Level,
) -> (r: InstrSeq<'arena>)
    ensures
        r@ == spec_emit_fatal::<'arena>(
            FatalOp::Runtime,
            *pos,
            break_continue_message(level as nat),
        ),
{
    let mut msg = String::from_str("Cannot break/continue ");
    let number = decimal_string(level);
    msg.append(number.as_str());
    msg.append(" level");
    if level == 1 {
        msg.append("");
    } else {
        msg.append("s");
    }
    emit_fatal_runtime(alloc, pos, msg.as_str())
}

} // verus!
