//! Turning constants into literals: scalars become the opcode of their
//! literal, arrays an entry of the static data section and an opcode that
//! names the entry.

use crate::adata_state::{
    AdataState,
    HhasAdata,
    SpecAdataState,
    ARRAY_PREFIX,
    DARRAY_PREFIX,
    DICT_PREFIX,
    KEYSET_PREFIX,
    VARRAY_PREFIX,
    VEC_PREFIX,
};
use crate::arena::alloc_str;
use crate::emitter::Emitter;
use crate::hhbc_ast::{AdataId, Instruct, Opcodes, Pseudo, SpecInstruct, SpecOpcodes};
use crate::instruction_sequence::{Error, InstrSeq};
use crate::options::{HhvmFlags, ARRAY_PROVENANCE, HACK_ARR_DV_ARRS};
use crate::runtime::{SpecTypedValue, TypedValue};
use crate::string_utils::{decimal, decimal_string};
use vstd::prelude::*;
use vstd::string::StringExecFns;
use vstd::utf8::encode_utf8;

verus! {

/// The name of the entry with the given number.
pub open spec fn adata_id_text(counter: nat) -> Seq<char> {
    "A_"@ + decimal(counter)
}

/// A new entry for `tv`: its name, and the static data section with it.
pub open spec fn spec_next_adata_id(st: SpecAdataState, tv: SpecTypedValue) -> (
    Seq<u8>,
    SpecAdataState,
) {
    let text = adata_id_text(st.counter);
    (
        encode_utf8(text),
        SpecAdataState { counter: st.counter + 1, map: st.map, adata: st.adata.push((text, tv)) },
    )
}

/// The name under which `tv` was noted last among the first `n` notes.
pub open spec fn spec_lookup(map: Seq<(SpecTypedValue, Seq<u8>)>, tv: SpecTypedValue, n: int)
    -> Option<Seq<u8>>
    decreases n,
{
    if n <= 0 || n > map.len() {
        None
    } else if map[n - 1].0 == tv {
        Some(map[n - 1].1)
    } else {
        spec_lookup(map, tv, n - 1)
    }
}

/// The name of the entry of the array literal `tv`, and the static data
/// section with it.
///
/// With array provenance every literal gets an entry of its own. Else
/// literals of one value share an entry: the first gets it, and its name is
/// noted for the others.
pub open spec fn spec_get_array_identifier(
    flags: HhvmFlags,
    st: SpecAdataState,
    tv: SpecTypedValue,
) -> (Seq<u8>, SpecAdataState) {
    if flags.spec_contains(ARRAY_PROVENANCE) {
        spec_next_adata_id(st, tv)
    } else {
        match spec_lookup(st.map, tv, st.map.len() as int) {
            Some(id) => (id, st),
            None => {
                let (id, with_entry) = spec_next_adata_id(st, tv);
                (
                    id,
                    SpecAdataState {
                        counter: with_entry.counter,
                        map: with_entry.map.push((tv, id)),
                        adata: with_entry.adata,
                    },
                )
            },
        }
    }
}

/// The opcode that names the entry `id` of a serialized array whose first
/// character is `prefix`, if the character is that of a kind of array.
pub open spec fn spec_adata_literal<'arena>(hack_arr_dv_arrs: bool, prefix: u8, id: Seq<u8>)
    -> Option<SpecOpcodes<'arena>> {
    if prefix == VARRAY_PREFIX && hack_arr_dv_arrs {
        Some(SpecOpcodes::Vec(id))
    } else if prefix == DARRAY_PREFIX && hack_arr_dv_arrs {
        Some(SpecOpcodes::Dict(id))
    } else if prefix == VARRAY_PREFIX || prefix == DARRAY_PREFIX || prefix == ARRAY_PREFIX {
        Some(SpecOpcodes::Array(id))
    } else if prefix == VEC_PREFIX {
        Some(SpecOpcodes::Vec(id))
    } else if prefix == DICT_PREFIX {
        Some(SpecOpcodes::Dict(id))
    } else if prefix == KEYSET_PREFIX {
        Some(SpecOpcodes::Keyset(id))
    } else {
        None
    }
}

/// The text of the error for a serialized array of no known kind.
pub open spec fn unknown_adata_message(d: Seq<char>) -> Seq<char> {
    "Unknown HhasAdata data: "@ + d
}

/// What the rewriting of a constant gives: the opcode of its literal, or
/// the text of an error; and the static data section afterwards.
pub struct Rewritten<'arena> {
    pub literal: Result<SpecOpcodes<'arena>, Seq<char>>,
    pub state: SpecAdataState,
}

/// The literal of the constant `tv`, whose text is `text` where it is a
/// serialized array.
///
/// Scalars, strings and classes have an opcode of their own. An array gets
/// an entry of the static data section, and the opcode of its kind names the
/// entry; the legacy kinds are emitted as `vec` and `dict` where the options
/// say so. A value that was never set has no literal, and neither has
/// serialized data that is empty or of no known kind; the latter gets its
/// entry all the same.
pub open spec fn spec_rewrite_typed_value<'arena>(
    flags: HhvmFlags,
    st: SpecAdataState,
    tv: SpecTypedValue,
    text: Seq<char>,
) -> Rewritten<'arena> {
    let hack_arr_dv_arrs = flags.spec_contains(HACK_ARR_DV_ARRS);
    let (id, with_entry) = spec_get_array_identifier(flags, st, tv);
    match tv {
        SpecTypedValue::Uninit => Rewritten {
            literal: Err("rewrite_typed_value: uninit"@),
            state: st,
        },
        SpecTypedValue::Null => Rewritten { literal: Ok(SpecOpcodes::Null), state: st },
        SpecTypedValue::Bool(b) => Rewritten {
            literal: Ok(
                if b {
                    SpecOpcodes::True
                } else {
                    SpecOpcodes::False
                },
            ),
            state: st,
        },
        SpecTypedValue::Int(i) => Rewritten { literal: Ok(SpecOpcodes::Int(i)), state: st },
        SpecTypedValue::String(s) => Rewritten { literal: Ok(SpecOpcodes::String(s)), state: st },
        SpecTypedValue::LazyClass(s) => Rewritten {
            literal: Ok(SpecOpcodes::LazyClass(s)),
            state: st,
        },
        SpecTypedValue::Float(s) => Rewritten { literal: Ok(SpecOpcodes::Double(s)), state: st },
        SpecTypedValue::Keyset(_) => Rewritten {
            literal: Ok(SpecOpcodes::Keyset(id)),
            state: with_entry,
        },
        SpecTypedValue::VArray(_) => Rewritten {
            literal: Ok(
                if hack_arr_dv_arrs {
                    SpecOpcodes::Vec(id)
                } else {
                    SpecOpcodes::Array(id)
                },
            ),
            state: with_entry,
        },
        SpecTypedValue::DArray(_) => Rewritten {
            literal: Ok(
                if hack_arr_dv_arrs {
                    SpecOpcodes::Dict(id)
                } else {
                    SpecOpcodes::Array(id)
                },
            ),
            state: with_entry,
        },
        SpecTypedValue::Vec(_) => Rewritten { literal: Ok(SpecOpcodes::Vec(id)), state: with_entry },
        SpecTypedValue::Dict(_) => Rewritten {
            literal: Ok(SpecOpcodes::Dict(id)),
            state: with_entry,
        },
        SpecTypedValue::HhasAdata(d) => if d.len() == 0 {
            Rewritten { literal: Err("HhasAdata may not be empty"@), state: st }
        } else {
            Rewritten {
                literal: match spec_adata_literal(hack_arr_dv_arrs, d[0], id) {
                    Some(o) => Ok(o),
                    None => Err(unknown_adata_message(text)),
                },
                state: with_entry,
            }
        },
    }
}

/// The text of a constant that is a serialized array; of other constants
/// the empty text.
pub open spec fn adata_text<'arena>(tv: TypedValue<'arena>) -> Seq<char> {
    match tv {
        TypedValue::HhasAdata(d) => d@,
        _ => Seq::empty(),
    }
}

/// Makes a new entry of the static data section for `value`, and gives
/// its name.
fn next_adata_id<'arena>(
    alloc: &'arena bumpalo::Bump,
    e: &mut Emitter<'arena>,
    value: &TypedValue<'arena>,
) -> (r: AdataId<'arena>)
    requires
        old(e).adata_state.array_identifier_counter < usize::MAX,
    ensures
        (r@, final(e).adata_state@) == spec_next_adata_id(old(e).adata_state@, value@),
        final(e).differs_in_adata_only(*old(e)),
{
    let mut id = String::from_str("A_");
    let number = decimal_string(e.adata_state.array_identifier_counter);
    id.append(number.as_str());
    e.adata_state.array_identifier_counter = e.adata_state.array_identifier_counter + 1;
    let r = alloc_str(alloc, id.as_str()).as_bytes();
    e.adata_state.adata.push(HhasAdata { id, value: value.duplicate() });
    assert(e.adata_state@ =~= spec_next_adata_id(old(e).adata_state@, value@).1);
    r
}

/// The name of the entry of the static data section that holds the array
/// literal `tv`. The entry is made if the literal has none yet.
pub fn get_array_identifier<'arena>(
    alloc: &'arena bumpalo::Bump,
    e: &mut Emitter<'arena>,
    tv: &TypedValue<'arena>,
) -> (r: AdataId<'arena>)
    requires
        old(e).adata_state.array_identifier_counter < usize::MAX,
    ensures
        (r@, final(e).adata_state@) == spec_get_array_identifier(
            old(e).options.hhvm.flags,
            old(e).adata_state@,
            tv@,
        ),
        final(e).differs_in_adata_only(*old(e)),
{
    if e.options.hhvm.flags.contains(ARRAY_PROVENANCE) {
        next_adata_id(alloc, e, tv)
    } else {
        let ghost map = e.adata_state@.map;
        let mut i: usize = e.adata_state.array_identifier_map.len();
        while i > 0
            invariant
                i <= e.adata_state.array_identifier_map.len(),
                *e == *old(e),
                !e.options.hhvm.flags.spec_contains(ARRAY_PROVENANCE),
                e.adata_state.array_identifier_counter < usize::MAX,
                map == e.adata_state@.map,
                spec_lookup(map, tv@, map.len() as int) == spec_lookup(map, tv@, i as int),
            decreases i,
        {
            i -= 1;
            if e.adata_state.array_identifier_map[i].0.same(tv) {
                let id = e.adata_state.array_identifier_map[i].1;
                assert(spec_lookup(map, tv@, i + 1) == Some(id@));
                return id;
            }
            assert(map[i as int].0 != tv@);
        }
        let id = next_adata_id(alloc, e, tv);
        e.adata_state.array_identifier_map.push((tv.duplicate(), id));
        assert(e.adata_state@ =~= spec_get_array_identifier(
            old(e).options.hhvm.flags,
            old(e).adata_state@,
            tv@,
        ).1);
        id
    }
}

/// Puts the opcode of its literal in the place of a constant. Other
/// instructions stay as they are.
fn rewrite_typed_value<'arena>(
    alloc: &'arena bumpalo::Bump,
    e: &mut Emitter<'arena>,
    instr: &mut Instruct<'arena>,
) -> (r: Result<(), Error>)
    requires
        old(e).adata_state.array_identifier_counter < usize::MAX,
    ensures
        match *old(instr) {
            Instruct::Pseudo(Pseudo::TypedValue(tv)) => {
                let rewritten = spec_rewrite_typed_value::<'arena>(
                    old(e).options.hhvm.flags,
                    old(e).adata_state@,
                    tv@,
                    adata_text(*tv),
                );
                &&& final(e).adata_state@ == rewritten.state
                &&& match rewritten.literal {
                    Ok(o) => r is Ok && final(instr)@ == SpecInstruct::Opcode(o),
                    Err(msg) => r matches Err(Error::Unrecoverable(m)) && m@ == msg && *final(instr)
                        == *old(instr),
                }
            },
            _ => r is Ok && *final(instr) == *old(instr) && final(e).adata_state@ == old(
                e,
            ).adata_state@,
        },
        final(e).adata_state.array_identifier_counter <= old(e).adata_state.array_identifier_counter
            + 1,
        final(e).differs_in_adata_only(*old(e)),
{
    let hack_arr_dv_arrs = e.options.hhvm.flags.contains(HACK_ARR_DV_ARRS);
    if let Instruct::Pseudo(Pseudo::TypedValue(tv)) = *instr {
        let literal = match tv {
            TypedValue::Uninit => {
                return Err(Error::Unrecoverable(String::from_str("rewrite_typed_value: uninit")));
            },
            TypedValue::Null => Opcodes::Null,
            TypedValue::Bool(true) => Opcodes::True,
            TypedValue::Bool(false) => Opcodes::False,
            TypedValue::Int(i) => Opcodes::Int(*i),
            TypedValue::String(s) => Opcodes::String(s.as_bytes()),
            TypedValue::LazyClass(s) => Opcodes::LazyClass(s.as_bytes()),
            TypedValue::Float(f) => Opcodes::Double(f.as_bytes()),
            TypedValue::Keyset(_) => {
                let arrayid = get_array_identifier(alloc, e, tv);
                Opcodes::Keyset(arrayid)
            },
            TypedValue::VArray(_) => {
                let arrayid = get_array_identifier(alloc, e, tv);
                if hack_arr_dv_arrs {
                    Opcodes::Vec(arrayid)
                } else {
                    Opcodes::Array(arrayid)
                }
            },
            TypedValue::DArray(_) => {
                let arrayid = get_array_identifier(alloc, e, tv);
                if hack_arr_dv_arrs {
                    Opcodes::Dict(arrayid)
                } else {
                    Opcodes::Array(arrayid)
                }
            },
            TypedValue::Vec(_) => {
                let arrayid = get_array_identifier(alloc, e, tv);
                Opcodes::Vec(arrayid)
            },
            TypedValue::Dict(_) => {
                let arrayid = get_array_identifier(alloc, e, tv);
                Opcodes::Dict(arrayid)
            },
            TypedValue::HhasAdata(d) => {
                let bytes = d.as_bytes();
                if bytes.len() == 0 {
                    return Err(
                        Error::Unrecoverable(String::from_str("HhasAdata may not be empty")),
                    );
                }
                let arrayid = get_array_identifier(alloc, e, tv);
                let prefix = bytes[0];
                if prefix == VARRAY_PREFIX && hack_arr_dv_arrs {
                    Opcodes::Vec(arrayid)
                } else if prefix == DARRAY_PREFIX && hack_arr_dv_arrs {
                    Opcodes::Dict(arrayid)
                } else if prefix == VARRAY_PREFIX || prefix == DARRAY_PREFIX || prefix
                    == ARRAY_PREFIX {
                    Opcodes::Array(arrayid)
                } else if prefix == VEC_PREFIX {
                    Opcodes::Vec(arrayid)
                } else if prefix == DICT_PREFIX {
                    Opcodes::Dict(arrayid)
                } else if prefix == KEYSET_PREFIX {
                    Opcodes::Keyset(arrayid)
                } else {
                    let mut msg = String::from_str("Unknown HhasAdata data: ");
                    msg.append(d);
                    return Err(Error::Unrecoverable(msg));
                }
            },
        };
        *instr = Instruct::Opcode(literal);
    }
    Ok(())
}

/// What the rewriting of a sequence gives: the text of the first error, if
/// there was one; the instructions and the static data section afterwards.
pub struct RewrittenSeq<'arena> {
    pub error: Option<Seq<char>>,
    pub instrs: Seq<SpecInstruct<'arena>>,
    pub state: SpecAdataState,
}

/// The rewriting of the first `n` instructions of `instrs`, in order. It
/// stops at the first constant that has no literal: the instructions from
/// that one on stay as they are.
pub open spec fn spec_rewrite_typed_values<'arena>(
    flags: HhvmFlags,
    st: SpecAdataState,
    instrs: Seq<SpecInstruct<'arena>>,
    n: int,
) -> RewrittenSeq<'arena>
    decreases n,
{
    if n <= 0 || n > instrs.len() {
        RewrittenSeq { error: None, instrs, state: st }
    } else {
        let before = spec_rewrite_typed_values(flags, st, instrs, n - 1);
        if before.error is Some {
            before
        } else {
            match instrs[n - 1] {
                SpecInstruct::Pseudo(Pseudo::TypedValue(tv)) => {
                    let rewritten = spec_rewrite_typed_value::<'arena>(
                        flags,
                        before.state,
                        tv@,
                        adata_text(*tv),
                    );
                    match rewritten.literal {
                        Ok(o) => RewrittenSeq {
                            error: None,
                            instrs: before.instrs.update(n - 1, SpecInstruct::Opcode(o)),
                            state: rewritten.state,
                        },
                        Err(msg) => RewrittenSeq {
                            error: Some(msg),
                            instrs: before.instrs,
                            state: rewritten.state,
                        },
                    }
                },
                _ => before,
            }
        }
    }
}

/// Puts the opcode of its literal in the place of each constant of the
/// sequence, in order, and stops at the first that has none.
pub fn rewrite_typed_values<'arena>(
    alloc: &'arena bumpalo::Bump,
    emitter: &mut Emitter<'arena>,
    instrseq: &mut InstrSeq<'arena>,
) -> (r: Result<(), Error>)
    requires
        old(emitter).adata_state.array_identifier_counter + old(instrseq)@.len() <= usize::MAX,
    ensures
        ({
            let rewritten = spec_rewrite_typed_values(
                old(emitter).options.hhvm.flags,
                old(emitter).adata_state@,
                old(instrseq)@,
                old(instrseq)@.len() as int,
            );
            &&& final(instrseq)@ == rewritten.instrs
            &&& final(emitter).adata_state@ == rewritten.state
            &&& match rewritten.error {
                None => r is Ok,
                Some(msg) => r matches Err(Error::Unrecoverable(m)) && m@ == msg,
            }
        }),
        final(emitter).differs_in_adata_only(*old(emitter)),
{
    let ghost flags = emitter.options.hhvm.flags;
    let ghost st = emitter.adata_state@;
    let ghost instrs = instrseq@;
    let n = instrseq.len();
    let mut i: usize = 0;
    while i < n
        invariant
            i <= n,
            n == instrs.len(),
            instrs == old(instrseq)@,
            st == old(emitter).adata_state@,
            instrseq@.len() == n,
            old(emitter).adata_state.array_identifier_counter + n <= usize::MAX,
            emitter.adata_state.array_identifier_counter <= old(
                emitter,
            ).adata_state.array_identifier_counter + i,
            emitter.differs_in_adata_only(*old(emitter)),
            flags == emitter.options.hhvm.flags,
            spec_rewrite_typed_values(flags, st, instrs, i as int).error is None,
            instrseq@ == spec_rewrite_typed_values(flags, st, instrs, i as int).instrs,
            emitter.adata_state@ == spec_rewrite_typed_values(flags, st, instrs, i as int).state,
            forall|j: int| i <= j < n ==> instrseq@[j] == instrs[j],
        decreases n - i,
    {
        let mut instr = instrseq.get(i);
        assert(instr@ == instrs[i as int]);
        match rewrite_typed_value(alloc, emitter, &mut instr) {
            Ok(()) => {
                instrseq.set(i, instr);
                assert(instrseq@ =~= spec_rewrite_typed_values(flags, st, instrs, i + 1).instrs);
            },
            Err(err) => {
                proof {
                    lemma_rewrite_stops(flags, st, instrs, i + 1, n as int);
                }
                return Err(err);
            },
        }
        i += 1;
    }
    Ok(())
}

/// Once a constant had no literal, the rewriting has gone as far as it
/// goes.
pub proof fn lemma_rewrite_stops<'arena>(
    flags: HhvmFlags,
    st: SpecAdataState,
    instrs: Seq<SpecInstruct<'arena>>,
    i: int,
    n: int,
)
    requires
        0 <= i <= n <= instrs.len(),
        spec_rewrite_typed_values(flags, st, instrs, i).error is Some,
    ensures
        spec_rewrite_typed_values(flags, st, instrs, n) == spec_rewrite_typed_values(
            flags,
            st,
            instrs,
            i,
        ),
    decreases n - i,
{
    if i < n {
        lemma_rewrite_stops(flags, st, instrs, i, n - 1);
    }
}

/// Takes the static data section out of the emitter and leaves one without
/// entries.
pub fn take<'arena>(alloc: &'arena bumpalo::Bump, e: &mut Emitter<'arena>) -> (r: AdataState<
    'arena,
>)
    ensures
        r == old(e).adata_state,
        final(e).adata_state@ == AdataState::<'arena>::spec_default(),
        final(e).differs_in_adata_only(*old(e)),
{
    let mut state = AdataState::default();
    std::mem::swap(&mut e.adata_state, &mut state);
    state
}

} // verus!
