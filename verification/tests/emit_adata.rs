use bumpalo::Bump;
use hhbc_emit::adata_state::{AdataState, HhasAdata};
use hhbc_emit::emit_adata::{get_array_identifier, rewrite_typed_values, take};
use hhbc_emit::emitter::Emitter;
use hhbc_emit::hhbc_ast::{Instruct, Opcodes, Pseudo};
use hhbc_emit::instruction_sequence::{Error, InstrSeq};
use hhbc_emit::options::{HhvmFlags, Options, ARRAY_PROVENANCE, HACK_ARR_DV_ARRS};
use hhbc_emit::runtime::{DictEntry, TypedValue};
use hhbc_emit::string_utils::decimal_string;

fn emitter<'a>(bits: u64) -> Emitter<'a> {
    Emitter::new(Options::new(HhvmFlags::from_bits(bits)))
}

fn tv<'a>(v: &'a TypedValue<'a>) -> Instruct<'a> {
    Instruct::Pseudo(Pseudo::TypedValue(v))
}

fn op<'a>(o: Opcodes<'a>) -> Instruct<'a> {
    Instruct::Opcode(o)
}

#[test]
fn scalars_become_their_literals() {
    let bump = Bump::new();
    let mut e = emitter(0);
    let values = vec![
        TypedValue::Null,
        TypedValue::Bool(true),
        TypedValue::Bool(false),
        TypedValue::Int(-7),
        TypedValue::String("text"),
        TypedValue::LazyClass("C"),
        TypedValue::Float("1.5"),
    ];
    let mut seq = InstrSeq::from_vec(values.iter().map(tv).collect());
    seq.push(op(Opcodes::PopC));
    assert_eq!(rewrite_typed_values(&bump, &mut e, &mut seq), Ok(()));
    assert_eq!(
        seq.to_vec(),
        vec![
            op(Opcodes::Null),
            op(Opcodes::True),
            op(Opcodes::False),
            op(Opcodes::Int(-7)),
            op(Opcodes::String(b"text")),
            op(Opcodes::LazyClass(b"C")),
            op(Opcodes::Double(b"1.5")),
            op(Opcodes::PopC),
        ]
    );
    assert_eq!(e.adata_state.array_identifier_counter, 0);
    assert!(e.adata_state.adata.is_empty());
}

#[test]
fn arrays_get_entries_and_equal_arrays_share_one() {
    let bump = Bump::new();
    let mut e = emitter(0);
    let a = TypedValue::Vec(vec![TypedValue::Int(1), TypedValue::String("x")]);
    let b = TypedValue::Vec(vec![TypedValue::Int(1), TypedValue::String("x")]);
    let c = TypedValue::Vec(vec![TypedValue::Int(1), TypedValue::String("y")]);
    let d = TypedValue::Dict(vec![DictEntry { key: TypedValue::Int(1), value: TypedValue::Null }]);
    let k = TypedValue::Keyset(vec![TypedValue::Int(1), TypedValue::String("x")]);
    let mut seq = InstrSeq::from_vec(vec![tv(&a), tv(&b), tv(&c), tv(&d), tv(&k), tv(&a)]);
    assert_eq!(rewrite_typed_values(&bump, &mut e, &mut seq), Ok(()));
    assert_eq!(
        seq.to_vec(),
        vec![
            op(Opcodes::Vec(b"A_0")),
            op(Opcodes::Vec(b"A_0")),
            op(Opcodes::Vec(b"A_1")),
            op(Opcodes::Dict(b"A_2")),
            op(Opcodes::Keyset(b"A_3")),
            op(Opcodes::Vec(b"A_0")),
        ]
    );
    assert_eq!(e.adata_state.array_identifier_counter, 4);
    assert_eq!(e.adata_state.adata.len(), 4);
    assert_eq!(e.adata_state.adata[0], HhasAdata { id: "A_0".to_string(), value: a.duplicate() });
    assert_eq!(e.adata_state.adata[3].id, "A_3");
    assert_eq!(e.adata_state.adata[3].value, k);
    assert_eq!(e.adata_state.array_identifier_map.len(), 4);
}

#[test]
fn array_provenance_gives_each_literal_its_own_entry() {
    let bump = Bump::new();
    let mut e = emitter(ARRAY_PROVENANCE);
    let a = TypedValue::Vec(vec![TypedValue::Int(1)]);
    assert_eq!(get_array_identifier(&bump, &mut e, &a), b"A_0");
    assert_eq!(get_array_identifier(&bump, &mut e, &a), b"A_1");
    assert!(e.adata_state.array_identifier_map.is_empty());
    assert_eq!(e.adata_state.adata.len(), 2);

    let mut shared = emitter(0);
    assert_eq!(get_array_identifier(&bump, &mut shared, &a), b"A_0");
    assert_eq!(get_array_identifier(&bump, &mut shared, &a), b"A_0");
    assert_eq!(shared.adata_state.adata.len(), 1);
}

#[test]
fn legacy_arrays_follow_the_options() {
    let bump = Bump::new();
    let va = TypedValue::VArray(vec![TypedValue::Int(1)]);
    let da = TypedValue::DArray(vec![]);
    let mut e = emitter(0);
    let mut seq = InstrSeq::from_vec(vec![tv(&va), tv(&da)]);
    assert_eq!(rewrite_typed_values(&bump, &mut e, &mut seq), Ok(()));
    assert_eq!(seq.to_vec(), vec![op(Opcodes::Array(b"A_0")), op(Opcodes::Array(b"A_1"))]);

    let mut e = emitter(HACK_ARR_DV_ARRS);
    let mut seq = InstrSeq::from_vec(vec![tv(&va), tv(&da)]);
    assert_eq!(rewrite_typed_values(&bump, &mut e, &mut seq), Ok(()));
    assert_eq!(seq.to_vec(), vec![op(Opcodes::Vec(b"A_0")), op(Opcodes::Dict(b"A_1"))]);
}

#[test]
fn serialized_arrays_are_told_by_their_first_character() {
    let bump = Bump::new();
    let data = vec![
        TypedValue::HhasAdata("y:0:{}"),
        TypedValue::HhasAdata("Y:0:{}"),
        TypedValue::HhasAdata("a:0:{}"),
        TypedValue::HhasAdata("v:0:{}"),
        TypedValue::HhasAdata("D:0:{}"),
        TypedValue::HhasAdata("k:0:{}"),
    ];
    let mut e = emitter(0);
    let mut seq = InstrSeq::from_vec(data.iter().map(tv).collect());
    assert_eq!(rewrite_typed_values(&bump, &mut e, &mut seq), Ok(()));
    assert_eq!(
        seq.to_vec(),
        vec![
            op(Opcodes::Array(b"A_0")),
            op(Opcodes::Array(b"A_1")),
            op(Opcodes::Array(b"A_2")),
            op(Opcodes::Vec(b"A_3")),
            op(Opcodes::Dict(b"A_4")),
            op(Opcodes::Keyset(b"A_5")),
        ]
    );
    let mut e = emitter(HACK_ARR_DV_ARRS);
    let mut seq = InstrSeq::from_vec(data.iter().map(tv).collect());
    assert_eq!(rewrite_typed_values(&bump, &mut e, &mut seq), Ok(()));
    assert_eq!(seq.get(0), op(Opcodes::Vec(b"A_0")));
    assert_eq!(seq.get(1), op(Opcodes::Dict(b"A_1")));
    assert_eq!(seq.get(2), op(Opcodes::Array(b"A_2")));
}

#[test]
fn rewriting_stops_at_the_first_constant_without_literal() {
    let bump = Bump::new();
    let mut e = emitter(0);
    let unset = TypedValue::Uninit;
    let one = TypedValue::Int(1);
    let mut seq = InstrSeq::from_vec(vec![tv(&one), tv(&unset), tv(&one)]);
    assert_eq!(
        rewrite_typed_values(&bump, &mut e, &mut seq),
        Err(Error::Unrecoverable("rewrite_typed_value: uninit".to_string()))
    );
    assert_eq!(seq.to_vec(), vec![op(Opcodes::Int(1)), tv(&unset), tv(&one)]);

    let empty = TypedValue::HhasAdata("");
    let mut seq = InstrSeq::instr(tv(&empty));
    assert_eq!(
        rewrite_typed_values(&bump, &mut e, &mut seq),
        Err(Error::Unrecoverable("HhasAdata may not be empty".to_string()))
    );
    assert_eq!(e.adata_state.array_identifier_counter, 0);

    let unknown = TypedValue::HhasAdata("x:1");
    let mut seq = InstrSeq::instr(tv(&unknown));
    assert_eq!(
        rewrite_typed_values(&bump, &mut e, &mut seq),
        Err(Error::Unrecoverable("Unknown HhasAdata data: x:1".to_string()))
    );
    assert_eq!(seq.to_vec(), vec![tv(&unknown)]);
    assert_eq!(
        Error::Unrecoverable("Unknown HhasAdata data: x:1".to_string()).to_string(),
        "Unknown HhasAdata data: x:1"
    );
    assert_eq!(e.adata_state.array_identifier_counter, 1);
    assert_eq!(e.adata_state.adata[0].id, "A_0");
}

#[test]
fn take_leaves_an_empty_section() {
    let bump = Bump::new();
    let mut e = emitter(0);
    let a = TypedValue::Vec(vec![]);
    get_array_identifier(&bump, &mut e, &a);
    let taken: AdataState = take(&bump, &mut e);
    assert_eq!(taken.array_identifier_counter, 1);
    assert_eq!(taken.adata.len(), 1);
    assert_eq!(e.adata_state, AdataState::default());
    assert_eq!(get_array_identifier(&bump, &mut e, &a), b"A_0");
}

#[test]
fn typed_values_compare_by_content() {
    let a = TypedValue::Dict(vec![DictEntry {
        key: TypedValue::String("k"),
        value: TypedValue::Vec(vec![TypedValue::Float("0.5"), TypedValue::Bool(true)]),
    }]);
    let b = a.duplicate();
    assert!(a.same(&b));
    assert_eq!(a, b);
    let c = TypedValue::Dict(vec![DictEntry {
        key: TypedValue::String("k"),
        value: TypedValue::Vec(vec![TypedValue::Float("0.5"), TypedValue::Bool(false)]),
    }]);
    assert!(!a.same(&c));
    assert!(!TypedValue::Vec(vec![]).same(&TypedValue::Keyset(vec![])));
    assert!(!TypedValue::String("a").same(&TypedValue::LazyClass("a")));
    assert!(!TypedValue::Vec(vec![TypedValue::Null]).same(&TypedValue::Vec(vec![])));
    assert!(TypedValue::Uninit.same(&TypedValue::Uninit));
}

#[test]
fn decimal_numerals() {
    assert_eq!(decimal_string(0), "0");
    assert_eq!(decimal_string(7), "7");
    assert_eq!(decimal_string(10), "10");
    assert_eq!(decimal_string(1234567890), "1234567890");
    assert_eq!(decimal_string(usize::MAX), usize::MAX.to_string());
}
